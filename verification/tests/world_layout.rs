use std::path::PathBuf;

use spaceview::camera::Camera;
use spaceview::fixed::ONE;
use spaceview::geometry::{Point, Rect};
use spaceview::scanner::FileNode;
use spaceview::world_layout::{content_rect, LayoutNode, WorldLayout};

fn fx(v: f64) -> i64 {
    (v * 4294967296.0).round() as i64
}

fn pt(x: f64, y: f64) -> Point {
    Point { x: fx(x), y: fx(y) }
}

fn rect(x0: f64, y0: f64, x1: f64, y1: f64) -> Rect {
    Rect { min: pt(x0, y0), max: pt(x1, y1) }
}

fn viewport() -> Rect {
    rect(0.0, 0.0, 800.0, 400.0)
}

fn file(name: &str, size: u64) -> FileNode {
    FileNode { name: name.to_string(), path: PathBuf::from(name), size, is_dir: false, file_count: 0, children: Vec::new() }
}

fn dir(name: &str, children: Vec<FileNode>) -> FileNode {
    let size = children.iter().map(|c| c.size).sum();
    let file_count = children.iter().map(|c| if c.is_dir { c.file_count } else { 1 }).sum();
    FileNode { name: name.to_string(), path: PathBuf::from(name), size, is_dir: true, file_count, children }
}

/// root
///   big (3): a (2), b (1)
///   docs (1): deep (1): leaf (1)
fn tree() -> FileNode {
    dir(
        "root",
        vec![
            dir("big", vec![file("a", 2), file("b", 1)]),
            dir("docs", vec![dir("deep", vec![file("leaf", 1)])]),
        ],
    )
}

fn count_expanded(nodes: &[LayoutNode]) -> usize {
    nodes.iter().map(|n| (if n.children_expanded { 1 } else { 0 }) + count_expanded(&n.children)).sum()
}

fn shape(nodes: &[LayoutNode]) -> Vec<(String, Rect, bool, usize)> {
    let mut out = Vec::new();
    for n in nodes {
        out.push((n.name.clone(), n.world_rect, n.children_expanded, n.children.len()));
        out.extend(shape(&n.children));
    }
    out
}

fn camera_for(world: &WorldLayout) -> Camera {
    let mut camera = Camera::new(Point { x: 0, y: 0 }, ONE);
    camera.reset(world.world_rect);
    camera
}

#[test]
fn new_lays_out_the_first_level_only() {
    let root = tree();
    let world = WorldLayout::new(&root, fx(0.5));
    assert_eq!(world.world_rect, rect(0.0, 0.0, 1.0, 0.5));
    assert_eq!(world.frame_counter, 0);
    assert_eq!(world.root_nodes.len(), 2);
    let big = &world.root_nodes[0];
    assert_eq!(big.name, "big");
    assert_eq!(big.world_rect, rect(0.0, 0.0, 0.75, 0.5));
    assert_eq!(big.depth, 0);
    assert_eq!(big.size, 3);
    assert!(big.is_dir);
    assert!(big.has_children);
    assert_eq!(big.color_index, 0);
    assert_eq!(big.child_index, 0);
    assert!(!big.children_expanded);
    assert!(big.children.is_empty());
    let docs = &world.root_nodes[1];
    assert_eq!(docs.name, "docs");
    assert_eq!(docs.world_rect, rect(0.75, 0.0, 1.0, 0.5));
    assert_eq!(docs.child_index, 1);
}

#[test]
fn new_of_an_empty_directory_has_no_nodes() {
    let world = WorldLayout::new(&dir("empty", vec![]), fx(0.5));
    assert!(world.root_nodes.is_empty());
    let zeros = WorldLayout::new(&dir("zeros", vec![file("x", 0), file("y", 0)]), fx(0.5));
    assert!(zeros.root_nodes.is_empty());
}

#[test]
fn files_and_empty_directories_have_no_children() {
    let root = dir("root", vec![file("f", 5), FileNode { size: 5, ..dir("hollow", vec![]) }]);
    let world = WorldLayout::new(&root, fx(1.0));
    assert_eq!(world.root_nodes.len(), 2);
    assert!(!world.root_nodes[0].is_dir);
    assert!(!world.root_nodes[0].has_children);
    assert!(world.root_nodes[1].is_dir);
    assert!(!world.root_nodes[1].has_children);
}

#[test]
fn content_rect_leaves_header_and_padding() {
    let r = content_rect(rect(0.0, 0.0, 1.0, 0.5), 3);
    // Header: 1% of the height. Padding: 0.2% of the shorter side.
    let hh = (fx(0.5) as i128 * 42949672 >> 32) as i64;
    let pad = (8589934i128 * fx(0.5) as i128 >> 32) as i64;
    assert_eq!(r, Rect { min: Point { x: pad, y: hh }, max: Point { x: ONE - pad, y: fx(0.5) - pad } });
    assert!((hh - fx(0.005)).abs() < 4);
    assert!((pad - fx(0.001)).abs() < 4);
}

#[test]
fn expand_visible_expands_large_directories_and_their_children() {
    let root = tree();
    let mut world = WorldLayout::new(&root, fx(0.5));
    let camera = camera_for(&world);
    let vp = viewport();
    world.expand_visible(&root, &camera, vp, 8);
    // "big" is 600 x 400 pixels and "docs" 200 x 400: both are expanded, and
    // so is "deep" inside "docs", in the same call.
    let big = &world.root_nodes[0];
    assert!(big.children_expanded);
    assert_eq!(big.children.len(), 2);
    assert_eq!(big.children[0].name, "a");
    assert_eq!(big.children[0].depth, 1);
    assert_eq!(big.children[0].color_index, 1);
    assert_eq!(big.children[0].child_index, 0);
    assert_eq!(big.children[1].name, "b");
    let inner = content_rect(big.world_rect, 0);
    assert_eq!(big.children[0].world_rect.min, inner.min);
    assert_eq!(big.children[1].world_rect.max, inner.max);
    let docs = &world.root_nodes[1];
    assert!(docs.children_expanded);
    assert_eq!(docs.children.len(), 1);
    let deep = &docs.children[0];
    assert_eq!(deep.name, "deep");
    assert_eq!(deep.world_rect, content_rect(docs.world_rect, 0));
    assert!(deep.children_expanded);
    assert_eq!(deep.children.len(), 1);
    assert_eq!(deep.children[0].name, "leaf");
    assert_eq!(deep.children[0].depth, 2);
    assert_eq!(deep.children[0].world_rect, content_rect(deep.world_rect, 1));
    assert!(!deep.children[0].children_expanded);
    assert_eq!(count_expanded(&world.root_nodes), 3);
}

#[test]
fn expand_visible_stops_at_its_budget() {
    let root = tree();
    let mut world = WorldLayout::new(&root, fx(0.5));
    let camera = camera_for(&world);
    let vp = viewport();
    world.expand_visible(&root, &camera, vp, 0);
    assert_eq!(count_expanded(&world.root_nodes), 0);
    world.expand_visible(&root, &camera, vp, 1);
    assert_eq!(count_expanded(&world.root_nodes), 1);
    assert!(world.root_nodes[0].children_expanded);
    assert!(!world.root_nodes[1].children_expanded);
    world.expand_visible(&root, &camera, vp, 1);
    assert_eq!(count_expanded(&world.root_nodes), 2);
    assert!(world.root_nodes[1].children_expanded);
    assert!(!world.root_nodes[1].children[0].children_expanded);
    world.expand_visible(&root, &camera, vp, 1);
    assert_eq!(count_expanded(&world.root_nodes), 3);
}

#[test]
fn expand_visible_reaches_a_fixed_point() {
    let root = tree();
    let mut world = WorldLayout::new(&root, fx(0.5));
    let camera = camera_for(&world);
    let vp = viewport();
    world.expand_visible(&root, &camera, vp, 1000);
    let settled = shape(&world.root_nodes);
    for budget in [0, 1, 1000] {
        world.expand_visible(&root, &camera, vp, budget);
        assert_eq!(shape(&world.root_nodes), settled);
    }
}

#[test]
fn expand_visible_passes_over_what_is_small_or_off_screen() {
    let root = tree();
    let vp = viewport();
    // A viewport of 80 x 40 pixels: nothing is larger than 80 pixels.
    let mut small = WorldLayout::new(&root, fx(0.5));
    let camera = camera_for(&small);
    small.expand_visible(&root, &camera, rect(0.0, 0.0, 80.0, 40.0), 8);
    assert_eq!(count_expanded(&small.root_nodes), 0);
    // Zoomed in on the left half: "docs" is off screen.
    let mut world = WorldLayout::new(&root, fx(0.5));
    let mut camera = camera_for(&world);
    camera.zoom = fx(4.0);
    camera.center = pt(0.125, 0.0625);
    world.expand_visible(&root, &camera, vp, 8);
    assert!(world.root_nodes[0].children_expanded);
    assert!(!world.root_nodes[1].children_expanded);
}

#[test]
fn expand_visible_ignores_a_node_without_a_file() {
    let root = tree();
    let mut world = WorldLayout::new(&root, fx(0.5));
    let camera = camera_for(&world);
    world.root_nodes[0].child_index = 7;
    world.expand_visible(&root, &camera, viewport(), 8);
    assert!(!world.root_nodes[0].children_expanded);
    assert!(world.root_nodes[1].children_expanded);
}

#[test]
fn maybe_prune_runs_on_every_sixtieth_call() {
    let root = tree();
    let vp = viewport();
    let mut world = WorldLayout::new(&root, fx(0.5));
    let camera = camera_for(&world);
    world.expand_visible(&root, &camera, vp, 8);
    assert_eq!(count_expanded(&world.root_nodes), 3);
    // Look away: everything is off screen now.
    let mut away = camera;
    away.zoom = fx(100.0);
    away.center = pt(50.0, 50.0);
    for call in 1..=59 {
        world.maybe_prune(&away, vp);
        assert_eq!(count_expanded(&world.root_nodes), 3, "call {}", call);
    }
    world.maybe_prune(&away, vp);
    assert_eq!(count_expanded(&world.root_nodes), 0);
    assert!(world.root_nodes[0].children.is_empty());
    assert_eq!(world.root_nodes.len(), 2);
    // And again sixty calls later.
    world.expand_visible(&root, &camera, vp, 8);
    for _ in 1..=59 {
        world.maybe_prune(&away, vp);
    }
    assert_eq!(count_expanded(&world.root_nodes), 3);
    world.maybe_prune(&away, vp);
    assert_eq!(count_expanded(&world.root_nodes), 0);
}

#[test]
fn prune_drops_what_is_small_and_keeps_what_is_large() {
    let root = tree();
    let vp = viewport();
    let mut world = WorldLayout::new(&root, fx(0.5));
    let camera = camera_for(&world);
    world.expand_visible(&root, &camera, vp, 8);
    // In a viewport of 60 x 30 pixels "big" is 45 x 30 and stays, "docs" is
    // 15 x 30 and goes, with all that is below it.
    world.frame_counter = 59;
    world.maybe_prune(&camera, rect(0.0, 0.0, 60.0, 30.0));
    assert_eq!(world.frame_counter, 0);
    assert!(world.root_nodes[0].children_expanded);
    assert_eq!(world.root_nodes[0].children.len(), 2);
    assert!(!world.root_nodes[1].children_expanded);
    assert!(world.root_nodes[1].children.is_empty());
}

#[test]
fn what_was_expanded_is_not_pruned_at_the_same_camera_position() {
    let root = tree();
    let vp = viewport();
    let mut world = WorldLayout::new(&root, fx(0.5));
    let camera = camera_for(&world);
    world.expand_visible(&root, &camera, vp, 8);
    let before = shape(&world.root_nodes);
    world.frame_counter = 59;
    world.maybe_prune(&camera, vp);
    assert_eq!(shape(&world.root_nodes), before);
    // Between the two thresholds: 100 x 50 pixels make "big" 75 x 50 pixels,
    // too small to be expanded, large enough to stay expanded.
    let between = rect(0.0, 0.0, 100.0, 50.0);
    let mut fresh = WorldLayout::new(&root, fx(0.5));
    fresh.expand_visible(&root, &camera, between, 8);
    assert!(!fresh.root_nodes[0].children_expanded);
    world.frame_counter = 59;
    world.maybe_prune(&camera, between);
    assert!(world.root_nodes[0].children_expanded);
}

#[test]
fn ancestor_chain_follows_expanded_nodes() {
    let root = tree();
    let vp = viewport();
    let mut world = WorldLayout::new(&root, fx(0.5));
    let camera = camera_for(&world);
    // Nothing expanded: the chain ends at the first level.
    let chain = world.ancestor_chain(pt(0.9, 0.25));
    assert_eq!(chain, vec![("docs", 0, rect(0.75, 0.0, 1.0, 0.5))]);
    world.expand_visible(&root, &camera, vp, 8);
    let chain = world.ancestor_chain(pt(0.9, 0.25));
    let names: Vec<&str> = chain.iter().map(|e| e.0).collect();
    assert_eq!(names, vec!["docs", "deep", "leaf"]);
    let colors: Vec<usize> = chain.iter().map(|e| e.1).collect();
    assert_eq!(colors, vec![0, 1, 2]);
    assert_eq!(chain[1].2, world.root_nodes[1].children[0].world_rect);
    // In the header band of "big" no child contains the point.
    let chain = world.ancestor_chain(pt(0.3, 0.001));
    assert_eq!(chain.len(), 1);
    assert_eq!(chain[0].0, "big");
    // Outside the world nothing does.
    assert!(world.ancestor_chain(pt(2.0, 2.0)).is_empty());
}

#[test]
fn deep_levels_cycle_through_the_palette() {
    let mut node = file("leaf", 1);
    for level in 0..10 {
        node = dir(&format!("level{}", level), vec![node]);
    }
    let mut world = WorldLayout::new(&node, fx(1.0));
    let camera = camera_for(&world);
    world.expand_visible(&node, &camera, rect(0.0, 0.0, 4000.0, 4000.0), 32);
    let chain = world.ancestor_chain(pt(0.5, 0.5));
    assert_eq!(chain.len(), 10);
    for (depth, entry) in chain.iter().enumerate() {
        assert_eq!(entry.1, depth % 8);
    }
}
