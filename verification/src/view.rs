//! The upkeep of one frame: when the layout is rebuilt, how much detail a
//! frame may add, and where the view goes when zooming out.

use vstd::prelude::*;
use crate::fixed::{ONE, abs_sat, sub_sat, div_sat, mul_sat, fx_abs, fx_sub, fx_div, fx_mul};
use crate::geometry::{Point, Offset, Rect};
use crate::camera::Camera;
use crate::scanner::FileNode;
use crate::world_layout::{WorldLayout, views, laid_out, expand_from, pruned_all};

verus! {

/// Expansions allowed in a frame while the camera is at rest or smoothing.
pub const IDLE_BUDGET: usize = 8;

/// Expansions allowed in a frame while a snap animation runs.
pub const ANIMATING_BUDGET: usize = 32;

/// The layout is rebuilt when the aspect ratio of the viewport differs from
/// that of the world by more than this (0.01).
pub const ASPECT_TOLERANCE: i64 = 42949672;

/// Height over width of a rectangle.
pub open spec fn spec_aspect(rect: Rect) -> i64 {
    div_sat(rect.spec_height(), rect.spec_width())
}

/// Height over width of a rectangle.
#[verifier::when_used_as_spec(spec_aspect)]
pub fn aspect(rect: Rect) -> (a: i64)
    ensures
        a == spec_aspect(rect),
{
    fx_div(rect.height(), rect.width())
}

/// The number of directories that one frame may expand: more while a snap
/// animation runs, to take in the detail that comes into view at once.
pub fn expansion_budget(animating: bool) -> (budget: usize)
    ensures
        budget == if animating { ANIMATING_BUDGET } else { IDLE_BUDGET },
{
    if animating {
        ANIMATING_BUDGET
    } else {
        IDLE_BUDGET
    }
}

/// Whether the aspect ratio of the viewport has moved away from that of the
/// world far enough for the layout to be rebuilt.
pub fn needs_rebuild(viewport: Rect, world_rect: Rect) -> (rebuild: bool)
    ensures
        rebuild == (abs_sat(sub_sat(spec_aspect(viewport), spec_aspect(world_rect))) > ASPECT_TOLERANCE),
{
    fx_abs(fx_sub(aspect(viewport), aspect(world_rect))) > ASPECT_TOLERANCE
}

/// Builds the layout of a scanned tree for the viewport and resets the
/// camera to show all of it.
pub fn build_layout(file_root: &FileNode, camera: &mut Camera, viewport: Rect) -> (layout: WorldLayout)
    ensures
        layout.world_rect == WorldLayout::world_rect_for(spec_aspect(viewport)),
        views(layout.root_nodes@) == laid_out(*file_root, layout.world_rect, 0),
        layout.frame_counter == 0,
        layout.well_formed(),
        *final(camera) == old(camera).spec_reset(layout.world_rect),
{
    let layout: WorldLayout = WorldLayout::new(file_root, aspect(viewport));
    camera.reset(layout.world_rect);
    camera.set_world_rect(layout.world_rect);
    layout
}

/// The factor by which heights grow when the aspect ratio of the world
/// changes from that of `old_world` to `new_aspect`; one where there was no
/// world or it had no height.
pub open spec fn height_ratio(old_world: Option<Rect>, new_aspect: i64) -> i64 {
    let old_aspect = match old_world {
        Some(rect) => spec_aspect(rect),
        None => ONE,
    };
    if old_aspect > 0 {
        div_sat(new_aspect, old_aspect)
    } else {
        ONE
    }
}

/// Rebuilds the layout for a viewport of another shape. The camera keeps its
/// zoom; its centres move with the world, whose height changes while its
/// width stays, so that the view stays on the same part of the tree.
pub fn rebuild_layout_preserving_camera(
    file_root: &FileNode,
    old_world: Option<Rect>,
    camera: &mut Camera,
    viewport: Rect,
) -> (layout: WorldLayout)
    ensures
        layout.world_rect == WorldLayout::world_rect_for(spec_aspect(viewport)),
        views(layout.root_nodes@) == laid_out(*file_root, layout.world_rect, 0),
        layout.frame_counter == 0,
        layout.well_formed(),
        *final(camera) == (Camera {
            world_rect: layout.world_rect,
            center: Point {
                x: old(camera).center.x,
                y: mul_sat(old(camera).center.y, height_ratio(old_world, spec_aspect(viewport))),
            },
            target_center: Point {
                x: old(camera).target_center.x,
                y: mul_sat(old(camera).target_center.y, height_ratio(old_world, spec_aspect(viewport))),
            },
            ..*old(camera)
        }),
{
    let old_aspect: i64 = match old_world {
        Some(rect) => aspect(rect),
        None => ONE,
    };
    let new_aspect: i64 = aspect(viewport);
    let y_ratio: i64 = if old_aspect > 0 {
        fx_div(new_aspect, old_aspect)
    } else {
        ONE
    };
    let layout: WorldLayout = WorldLayout::new(file_root, new_aspect);
    camera.set_world_rect(layout.world_rect);
    camera.center.y = fx_mul(camera.center.y, y_ratio);
    camera.target_center.y = fx_mul(camera.target_center.y, y_ratio);
    layout
}

/// Brings the layout up to date with the view for one frame: first expands
/// what has become large enough, within the budget that fits the camera's
/// state, then lets pruning take its turn.
pub fn update_layout(layout: &mut WorldLayout, file_root: &FileNode, camera: &Camera, viewport: Rect)
    ensures
        final(layout).world_rect == old(layout).world_rect,
        old(layout).well_formed() ==> final(layout).well_formed(),
        ({
            let budget = if camera.animating { ANIMATING_BUDGET } else { IDLE_BUDGET };
            let expanded = expand_from(views(old(layout).root_nodes@), 0, *file_root, *camera, viewport, 0, budget as int).0;
            if old(layout).prune_due() {
                final(layout).frame_counter == 0 && views(final(layout).root_nodes@) == pruned_all(expanded, *camera, viewport)
            } else {
                final(layout).frame_counter == old(layout).frame_counter + 1 && views(final(layout).root_nodes@) == expanded
            }
        }),
{
    let budget: usize = expansion_budget(camera.is_animating());
    layout.expand_visible(file_root, camera, viewport, budget);
    layout.maybe_prune(camera, viewport);
}

/// The world distance of a drag across the screen.
pub open spec fn spec_drag_to_world(camera: Camera, screen_delta: Offset, viewport: Rect) -> Offset {
    Offset {
        x: div_sat(screen_delta.x, camera.screen_scale(viewport)),
        y: div_sat(screen_delta.y, camera.screen_scale(viewport)),
    }
}

/// Converts a drag distance on screen to the world distance it covers at the
/// camera's scale.
pub fn drag_to_world(camera: &Camera, screen_delta: Offset, viewport: Rect) -> (world_delta: Offset)
    ensures
        world_delta == spec_drag_to_world(*camera, screen_delta, viewport),
{
    let scale: i64 = fx_mul(camera.zoom, viewport.width());
    Offset { x: fx_div(screen_delta.x, scale), y: fx_div(screen_delta.y, scale) }
}

/// Where zooming out leads: the rectangle of the last but one entry of the
/// ancestor chain of the view's centre, or the whole world where the chain
/// has fewer than two entries.
pub fn zoom_out_target(chain: &Vec<(&str, usize, Rect)>, world_rect: Rect) -> (target: Rect)
    ensures
        target == if chain@.len() >= 2 { chain@[chain@.len() - 2].2 } else { world_rect },
{
    if chain.len() >= 2 {
        chain[chain.len() - 2].2
    } else {
        world_rect
    }
}

} // verus!
