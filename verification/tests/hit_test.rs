use std::path::PathBuf;

use spaceview::camera::Camera;
use spaceview::fixed::ONE;
use spaceview::geometry::{Offset, Point, Rect};
use spaceview::hit_test::{child_screen_rects, hit_test_node, screen_content, screen_hit_test};
use spaceview::scanner::FileNode;
use spaceview::treemap::layout;
use spaceview::view::{build_layout, drag_to_world, expansion_budget, needs_rebuild, rebuild_layout_preserving_camera, update_layout, zoom_out_target};
use spaceview::world_layout::{LayoutNode, WorldLayout};

fn fx(v: f64) -> i64 {
    (v * 4294967296.0).round() as i64
}

fn pt(x: f64, y: f64) -> Point {
    Point { x: fx(x), y: fx(y) }
}

fn rect(x0: f64, y0: f64, x1: f64, y1: f64) -> Rect {
    Rect { min: pt(x0, y0), max: pt(x1, y1) }
}

fn viewport() -> Rect {
    rect(0.0, 0.0, 800.0, 400.0)
}

fn file(name: &str, size: u64) -> FileNode {
    FileNode { name: name.to_string(), path: PathBuf::from(name), size, is_dir: false, file_count: 0, children: Vec::new() }
}

fn dir(name: &str, children: Vec<FileNode>) -> FileNode {
    let size = children.iter().map(|c| c.size).sum();
    FileNode { name: name.to_string(), path: PathBuf::from(name), size, is_dir: true, file_count: 0, children }
}

fn tree() -> FileNode {
    dir("root", vec![dir("big", vec![file("a", 2), file("b", 1)]), dir("docs", vec![dir("deep", vec![file("leaf", 1)])])])
}

fn expanded_world() -> (FileNode, WorldLayout, Camera) {
    let root = tree();
    let mut camera = Camera::new(pt(0.5, 0.5), ONE);
    let mut world = build_layout(&root, &mut camera, viewport());
    world.expand_visible(&root, &camera, viewport(), 8);
    (root, world, camera)
}

fn count_expanded(nodes: &[LayoutNode]) -> usize {
    nodes.iter().map(|n| (if n.children_expanded { 1 } else { 0 }) + count_expanded(&n.children)).sum()
}

#[test]
fn screen_content_lies_inside_border_header_and_padding() {
    let content = screen_content(rect(100.0, 50.0, 300.0, 250.0));
    // Border 1.5, then header 16 at the top and padding 3 elsewhere.
    assert_eq!(content, rect(104.5, 67.5, 295.5, 245.5));
    // A low rectangle: the header takes all of the inner height.
    let low = screen_content(rect(0.0, 0.0, 100.0, 13.0));
    assert_eq!(low.min.y, fx(11.5));
    assert_eq!(low.max.y, fx(8.5));
}

#[test]
fn child_screen_rects_lay_the_children_out_in_the_content_area() {
    let (_root, world, _camera) = expanded_world();
    let big = &world.root_nodes[0];
    let screen = rect(0.0, 0.0, 600.0, 400.0);
    let rects = child_screen_rects(big, screen);
    let content = screen_content(screen);
    assert_eq!(rects, layout(content.min.x, content.min.y, content.width(), content.height(), &[2, 1]));
    assert_eq!(rects.len(), 2);
    assert_eq!(rects[0].index, 0);
    assert_eq!((rects[0].x, rects[0].y), (content.min.x, content.min.y));
    // Too small a content area shows no children.
    assert!(child_screen_rects(big, rect(0.0, 0.0, 600.0, 20.0)).is_empty());
    // Neither does a node that is not expanded.
    let fresh = WorldLayout::new(&tree(), fx(0.5));
    assert!(child_screen_rects(&fresh.root_nodes[0], screen).is_empty());
}

#[test]
fn hit_test_finds_the_deepest_node() {
    let (_root, world, camera) = expanded_world();
    let vp = viewport();
    let hit = screen_hit_test(&world.root_nodes, &camera, vp, pt(100.0, 200.0)).unwrap();
    assert_eq!(hit.name, "a");
    assert_eq!(hit.size, 2);
    assert!(!hit.is_dir);
    assert!(!hit.has_children);
    assert_eq!(hit.world_rect, world.root_nodes[0].children[0].world_rect);
    let shown = child_screen_rects(&world.root_nodes[0], camera.world_to_screen(world.root_nodes[0].world_rect, vp));
    assert_eq!(hit.screen_rect, Rect::from_min_size(Point { x: shown[0].x, y: shown[0].y }, Offset { x: shown[0].w, y: shown[0].h }));
    let hit = screen_hit_test(&world.root_nodes, &camera, vp, pt(700.0, 200.0)).unwrap();
    assert_eq!(hit.name, "leaf");
}

#[test]
fn hit_test_in_a_header_finds_the_directory() {
    let (_root, world, camera) = expanded_world();
    let vp = viewport();
    let hit = screen_hit_test(&world.root_nodes, &camera, vp, pt(100.0, 5.0)).unwrap();
    assert_eq!(hit.name, "big");
    assert!(hit.is_dir);
    assert!(hit.has_children);
    assert_eq!(hit.screen_rect, rect(0.0, 0.0, 600.0, 400.0));
    let hit = screen_hit_test(&world.root_nodes, &camera, vp, pt(601.0, 5.0)).unwrap();
    assert_eq!(hit.name, "docs");
    // Inside the header of "deep", which begins below the header of "docs".
    let hit = screen_hit_test(&world.root_nodes, &camera, vp, pt(700.0, 25.0)).unwrap();
    assert_eq!(hit.name, "deep");
}

#[test]
fn hit_test_outside_every_node_finds_nothing() {
    let (_root, world, camera) = expanded_world();
    assert!(screen_hit_test(&world.root_nodes, &camera, viewport(), pt(900.0, 200.0)).is_none());
    assert!(screen_hit_test(&world.root_nodes, &camera, viewport(), pt(100.0, -1.0)).is_none());
    assert!(screen_hit_test(&Vec::new(), &camera, viewport(), pt(100.0, 100.0)).is_none());
}

#[test]
fn hit_test_passes_over_nodes_too_small_to_draw() {
    let (_root, world, _camera) = expanded_world();
    let big = &world.root_nodes[0];
    assert!(hit_test_node(big, rect(0.0, 0.0, 1.5, 100.0), viewport(), pt(1.0, 50.0)).is_none());
    assert!(hit_test_node(big, rect(0.0, 0.0, 100.0, 1.5), viewport(), pt(50.0, 1.0)).is_none());
    assert_eq!(hit_test_node(big, rect(0.0, 0.0, 100.0, 2.0), viewport(), pt(50.0, 1.0)).unwrap().name, "big");
}

#[test]
fn expansion_budget_is_larger_while_animating() {
    assert_eq!(expansion_budget(false), 8);
    assert_eq!(expansion_budget(true), 32);
}

#[test]
fn needs_rebuild_when_the_aspect_ratio_has_changed() {
    let world = rect(0.0, 0.0, 1.0, 0.5);
    assert!(!needs_rebuild(rect(0.0, 0.0, 800.0, 400.0), world));
    assert!(!needs_rebuild(rect(10.0, 10.0, 810.0, 414.0), world));
    assert!(needs_rebuild(rect(0.0, 0.0, 800.0, 410.0), world));
    assert!(needs_rebuild(rect(0.0, 0.0, 800.0, 390.0), world));
}

#[test]
fn build_layout_resets_the_camera() {
    let root = tree();
    let mut camera = Camera::new(pt(0.9, 0.1), fx(7.0));
    let world = build_layout(&root, &mut camera, viewport());
    assert_eq!(world.world_rect, rect(0.0, 0.0, 1.0, 0.5));
    assert_eq!(world.root_nodes.len(), 2);
    assert_eq!(camera.center, pt(0.5, 0.25));
    assert_eq!(camera.zoom, ONE);
    assert_eq!(camera.world_rect, world.world_rect);
    assert!(!camera.is_animating());
}

#[test]
fn rebuild_keeps_the_view_on_the_same_part_of_the_tree() {
    let root = tree();
    let mut camera = Camera::new(pt(0.5, 0.5), ONE);
    let old = build_layout(&root, &mut camera, viewport());
    camera.zoom = fx(4.0);
    camera.target_zoom = fx(4.0);
    camera.center = pt(0.3, 0.375);
    camera.target_center = pt(0.3, 0.25);
    // The viewport becomes square: heights double.
    let world = rebuild_layout_preserving_camera(&root, Some(old.world_rect), &mut camera, rect(0.0, 0.0, 400.0, 400.0));
    assert_eq!(world.world_rect, rect(0.0, 0.0, 1.0, 1.0));
    assert_eq!(camera.world_rect, world.world_rect);
    assert_eq!(camera.center, pt(0.3, 0.75));
    assert_eq!(camera.target_center, pt(0.3, 0.5));
    assert_eq!(camera.zoom, fx(4.0));
    assert_eq!(world.root_nodes[0].world_rect, rect(0.0, 0.0, 0.75, 1.0));
    // Without an old world the ratio is taken against a square.
    let mut other = Camera::new(pt(0.5, 0.5), ONE);
    let _ = rebuild_layout_preserving_camera(&root, None, &mut other, viewport());
    assert_eq!(other.center, pt(0.5, 0.25));
}

#[test]
fn update_layout_expands_before_it_prunes() {
    let root = tree();
    let mut camera = Camera::new(pt(0.5, 0.5), ONE);
    let mut world = build_layout(&root, &mut camera, viewport());
    update_layout(&mut world, &root, &camera, viewport());
    assert_eq!(count_expanded(&world.root_nodes), 3);
    assert_eq!(world.frame_counter, 1);
    // On the frame that prunes, what is expanded in that frame stays.
    let mut again = build_layout(&root, &mut camera, viewport());
    again.frame_counter = 59;
    update_layout(&mut again, &root, &camera, viewport());
    assert_eq!(again.frame_counter, 0);
    assert_eq!(count_expanded(&again.root_nodes), 3);
}

#[test]
fn update_layout_uses_the_budget_of_the_camera_state() {
    let mut children = Vec::new();
    for i in 0..40 {
        children.push(dir(&format!("d{}", i), vec![file("f", 1)]));
    }
    let root = dir("root", children);
    let vp = rect(0.0, 0.0, 4000.0, 4000.0);
    let mut camera = Camera::new(pt(0.5, 0.5), ONE);
    let mut world = build_layout(&root, &mut camera, vp);
    update_layout(&mut world, &root, &camera, vp);
    assert_eq!(count_expanded(&world.root_nodes), 8);
    camera.snap_to(world.world_rect, vp);
    update_layout(&mut world, &root, &camera, vp);
    assert_eq!(count_expanded(&world.root_nodes), 40);
}

#[test]
fn drag_to_world_divides_by_the_scale() {
    let camera = Camera::new(pt(0.5, 0.5), fx(2.0));
    let delta = drag_to_world(&camera, Offset { x: fx(200.0), y: fx(-100.0) }, viewport());
    assert_eq!(delta, Offset { x: fx(0.125), y: fx(-0.0625) });
}

#[test]
fn zoom_out_goes_to_the_parent_or_the_world() {
    let world = rect(0.0, 0.0, 1.0, 0.5);
    let a = rect(0.0, 0.0, 0.5, 0.5);
    let b = rect(0.1, 0.1, 0.4, 0.4);
    let c = rect(0.2, 0.2, 0.3, 0.3);
    assert_eq!(zoom_out_target(&vec![], world), world);
    assert_eq!(zoom_out_target(&vec![("a", 0, a)], world), world);
    assert_eq!(zoom_out_target(&vec![("a", 0, a), ("b", 1, b)], world), a);
    assert_eq!(zoom_out_target(&vec![("a", 0, a), ("b", 1, b), ("c", 2, c)], world), b);
}
