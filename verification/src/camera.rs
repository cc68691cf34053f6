//! Continuous camera over the world-space treemap.
//!
//! The camera holds the rendered pose (`center`, `zoom`) and the pose it is
//! approaching (`target_center`, `target_zoom`). Panning and zooming move the
//! target and `tick` smooths the rendered pose towards it; `snap_to` starts an
//! eased animation of fixed duration instead. After every change the centres
//! are clamped so that the view stays inside the world rectangle.
//!
//! All quantities are fixed-point numbers (see `fixed`). World space puts the
//! width of the world at `1.0`; screen space is in pixels.

use vstd::prelude::*;
use crate::fixed::{ONE, HALF, add_sat, sub_sat, mul_sat, div_sat, abs_sat, min_of, clamp_to, fx_add, fx_sub, fx_mul, fx_div, fx_abs, fx_min, fx_clamp};
use crate::geometry::{Point, Offset, Rect};

verus! {

/// Largest zoom factor.
pub const MAX_ZOOM: i64 = 21474836480000;

/// Smallest zoom factor: the whole width of the world fills the viewport.
pub const MIN_ZOOM: i64 = 4294967296;

/// Duration of a snap animation, in seconds (0.35).
pub const SNAP_DURATION: i64 = 1503238553;

/// Zoom differences up to this (0.001) are closed in one step.
pub const ZOOM_EPSILON: i64 = 4294967;

/// Centre differences up to this (0.00001) are closed in one step.
pub const PAN_EPSILON: i64 = 42949;

/// Continuous camera for viewing the world-space treemap.
#[derive(Clone, Copy, Debug, PartialEq, Eq, Structural)]
pub struct Camera {
    /// Rendered centre of the view, in world space.
    pub center: Point,
    /// Rendered zoom factor.
    pub zoom: i64,
    /// Centre that the view is approaching.
    pub target_center: Point,
    /// Zoom factor that the view is approaching.
    pub target_zoom: i64,
    /// Centre at the start of the running snap animation.
    pub anim_start_center: Point,
    /// Zoom factor at the start of the running snap animation.
    pub anim_start_zoom: i64,
    /// Progress of the running snap animation, from `0.0` to `1.0`.
    pub anim_progress: i64,
    /// Whether a snap animation is running.
    pub animating: bool,
    /// Bounds that the view is kept in.
    pub world_rect: Rect,
}

/// Ease-out cubic, `1 - (1 - t)^3`: fast start, smooth deceleration.
pub open spec fn eased(t: i64) -> i64 {
    let u = sub_sat(ONE, t);
    sub_sat(ONE, mul_sat(mul_sat(u, u), u))
}

/// Ease-out cubic, `1 - (1 - t)^3`: fast start, smooth deceleration.
fn ease_out_cubic(t: i64) -> (e: i64)
    ensures
        e == eased(t),
{
    let u: i64 = fx_sub(ONE, t);
    fx_sub(ONE, fx_mul(fx_mul(u, u), u))
}

/// The value `t` of the way from `from` to `to`.
pub open spec fn blend(from: i64, to: i64, t: i64) -> i64 {
    add_sat(from, mul_sat(sub_sat(to, from), t))
}

fn lerp(from: i64, to: i64, t: i64) -> (v: i64)
    ensures
        v == blend(from, to, t),
{
    fx_add(from, fx_mul(fx_sub(to, from), t))
}

/// Half the width of the view in world space at the given zoom.
pub open spec fn half_width(zoom: i64) -> i64 {
    div_sat(HALF, zoom)
}

/// Half the height of the view in world space at the given zoom.
pub open spec fn half_height(zoom: i64, viewport: Rect) -> i64 {
    div_sat(mul_sat(div_sat(viewport.spec_height(), viewport.spec_width()), HALF), zoom)
}

/// One coordinate of a centre, limited so that a view extending `half` to
/// either side stays between `lo` and `hi`; where the view is at least as wide
/// as that range, the middle of the range.
pub open spec fn clamped_axis(c: i64, half: i64, lo: i64, hi: i64) -> i64 {
    if sub_sat(hi, lo) <= add_sat(half, half) {
        crate::geometry::midpoint(lo, hi)
    } else {
        clamp_to(c, add_sat(lo, half), sub_sat(hi, half))
    }
}

/// The centre `c` limited so that the view at `zoom` stays inside `wr`.
pub open spec fn clamped_point(c: Point, zoom: i64, viewport: Rect, wr: Rect) -> Point {
    Point {
        x: clamped_axis(c.x, half_width(zoom), wr.min.x, wr.max.x),
        y: clamped_axis(c.y, half_height(zoom, viewport), wr.min.y, wr.max.y),
    }
}

fn clamp_axis(c: i64, half: i64, lo: i64, hi: i64) -> (r: i64)
    ensures
        r == clamped_axis(c, half, lo, hi),
{
    if fx_sub(hi, lo) <= fx_add(half, half) {
        crate::geometry::fx_mid(lo, hi)
    } else {
        fx_clamp(c, fx_add(lo, half), fx_sub(hi, half))
    }
}

fn clamp_point(center: &mut Point, zoom: i64, viewport: Rect, wr: Rect)
    ensures
        *final(center) == clamped_point(*old(center), zoom, viewport, wr),
{
    let half_w: i64 = fx_div(HALF, zoom);
    let half_h: i64 = fx_div(fx_mul(fx_div(viewport.height(), viewport.width()), HALF), zoom);
    center.x = clamp_axis(center.x, half_w, wr.min.x, wr.max.x);
    center.y = clamp_axis(center.y, half_h, wr.min.y, wr.max.y);
}

impl Camera {
    /// A camera at rest at the given pose, bounded by the unit square.
    pub open spec fn spec_new(center: Point, zoom: i64) -> Camera {
        Camera {
            center,
            zoom,
            target_center: center,
            target_zoom: zoom,
            anim_start_center: center,
            anim_start_zoom: zoom,
            anim_progress: 0,
            animating: false,
            world_rect: Rect { min: Point { x: 0, y: 0 }, max: Point { x: ONE, y: ONE } },
        }
    }

    /// A camera at rest at the given pose, bounded by the unit square.
    pub fn new(center: Point, zoom: i64) -> (camera: Camera)
        ensures
            camera == Self::spec_new(center, zoom),
    {
        Camera {
            center,
            zoom,
            target_center: center,
            target_zoom: zoom,
            anim_start_center: center,
            anim_start_zoom: zoom,
            anim_progress: 0,
            animating: false,
            world_rect: Rect::from_min_max(Point { x: 0, y: 0 }, Point { x: ONE, y: ONE }),
        }
    }

    /// Sets the world bounds that the view is clamped to.
    pub fn set_world_rect(&mut self, rect: Rect)
        ensures
            *final(self) == (Camera { world_rect: rect, ..*old(self) }),
    {
        self.world_rect = rect;
    }

    /// Whether a snap animation is running.
    pub fn is_animating(&self) -> (b: bool)
        ensures
            b == self.animating,
    {
        self.animating
    }

    /// The camera showing the whole of `world_rect`, at rest.
    pub open spec fn spec_reset(self, world_rect: Rect) -> Camera {
        Camera {
            center: world_rect.spec_center(),
            zoom: ONE,
            target_center: world_rect.spec_center(),
            target_zoom: ONE,
            animating: false,
            world_rect,
            ..self
        }
    }

    /// Resets the camera to show the whole of `world_rect`.
    pub fn reset(&mut self, world_rect: Rect)
        ensures
            *final(self) == old(self).spec_reset(world_rect),
    {
        let c: Point = world_rect.center();
        self.center = c;
        self.zoom = ONE;
        self.target_center = c;
        self.target_zoom = ONE;
        self.animating = false;
        self.world_rect = world_rect;
    }

    /// Pixels per world unit: the zoom times the width of the viewport.
    pub open spec fn screen_scale(self, viewport: Rect) -> i64 {
        mul_sat(self.zoom, viewport.spec_width())
    }

    /// The screen position of a world position.
    pub open spec fn point_to_screen(self, p: Point, viewport: Rect) -> Point {
        let scale = self.screen_scale(viewport);
        let vc = viewport.spec_center();
        Point {
            x: add_sat(mul_sat(sub_sat(p.x, self.center.x), scale), vc.x),
            y: add_sat(mul_sat(sub_sat(p.y, self.center.y), scale), vc.y),
        }
    }

    /// The screen rectangle of a world rectangle.
    pub open spec fn spec_world_to_screen(&self, world: Rect, viewport: Rect) -> Rect {
        Rect { min: self.point_to_screen(world.min, viewport), max: self.point_to_screen(world.max, viewport) }
    }

    /// Transforms a world-space rectangle to screen space:
    /// `screen = (world - center) * zoom * viewport.width + viewport.center`.
    #[verifier::when_used_as_spec(spec_world_to_screen)]
    pub fn world_to_screen(&self, world: Rect, viewport: Rect) -> (screen: Rect)
        ensures
            screen == self.spec_world_to_screen(world, viewport),
    {
        let vp_center: Point = viewport.center();
        let scale: i64 = fx_mul(self.zoom, viewport.width());
        let min: Point = Point {
            x: fx_add(fx_mul(fx_sub(world.min.x, self.center.x), scale), vp_center.x),
            y: fx_add(fx_mul(fx_sub(world.min.y, self.center.y), scale), vp_center.y),
        };
        let max: Point = Point {
            x: fx_add(fx_mul(fx_sub(world.max.x, self.center.x), scale), vp_center.x),
            y: fx_add(fx_mul(fx_sub(world.max.y, self.center.y), scale), vp_center.y),
        };
        Rect::from_min_max(min, max)
    }

    /// The world position of a screen position.
    pub open spec fn spec_screen_to_world(&self, screen_pos: Point, viewport: Rect) -> Point {
        let scale = self.screen_scale(viewport);
        let vc = viewport.spec_center();
        Point {
            x: add_sat(div_sat(sub_sat(screen_pos.x, vc.x), scale), self.center.x),
            y: add_sat(div_sat(sub_sat(screen_pos.y, vc.y), scale), self.center.y),
        }
    }

    /// Transforms a screen position to world space, the inverse of
    /// `world_to_screen`.
    #[verifier::when_used_as_spec(spec_screen_to_world)]
    pub fn screen_to_world(&self, screen_pos: Point, viewport: Rect) -> (world: Point)
        ensures
            world == self.spec_screen_to_world(screen_pos, viewport),
    {
        let vp_center: Point = viewport.center();
        let scale: i64 = fx_mul(self.zoom, viewport.width());
        Point {
            x: fx_add(fx_div(fx_sub(screen_pos.x, vp_center.x), scale), self.center.x),
            y: fx_add(fx_div(fx_sub(screen_pos.y, vp_center.y), scale), self.center.y),
        }
    }

    /// The camera with both centres clamped into the world rectangle, each at
    /// its own zoom.
    pub open spec fn spec_clamp_center(self, viewport: Rect) -> Camera {
        Camera {
            target_center: clamped_point(self.target_center, self.target_zoom, viewport, self.world_rect),
            center: clamped_point(self.center, self.zoom, viewport, self.world_rect),
            ..self
        }
    }

    /// Clamps the centres so that the viewport stays within the world
    /// rectangle; where the world is smaller than the view, centres it.
    fn clamp_center(&mut self, viewport: Rect)
        ensures
            *final(self) == old(self).spec_clamp_center(viewport),
    {
        let wr: Rect = self.world_rect;
        clamp_point(&mut self.target_center, self.target_zoom, viewport, wr);
        clamp_point(&mut self.center, self.zoom, viewport, wr);
    }

    /// The camera after one frame of a running snap animation.
    pub open spec fn spec_tick_animating(self, dt: i64, viewport: Rect) -> Camera {
        let progress = add_sat(self.anim_progress, div_sat(dt, SNAP_DURATION));
        if progress >= ONE {
            (Camera {
                anim_progress: ONE,
                animating: false,
                center: self.target_center,
                zoom: self.target_zoom,
                ..self
            }).spec_clamp_center(viewport)
        } else {
            let t = eased(progress);
            (Camera {
                anim_progress: progress,
                center: Point {
                    x: blend(self.anim_start_center.x, self.target_center.x, t),
                    y: blend(self.anim_start_center.y, self.target_center.y, t),
                },
                zoom: blend(self.anim_start_zoom, self.target_zoom, t),
                ..self
            }).spec_clamp_center(viewport)
        }
    }

    /// Whether the zoom is far enough from its target to be smoothed.
    pub open spec fn zoom_moving(self) -> bool {
        abs_sat(sub_sat(self.target_zoom, self.zoom)) > ZOOM_EPSILON
    }

    /// Whether the centre is far enough from its target to be smoothed.
    pub open spec fn center_moving(self) -> bool {
        ||| abs_sat(sub_sat(self.target_center.x, self.center.x)) > PAN_EPSILON
        ||| abs_sat(sub_sat(self.target_center.y, self.center.y)) > PAN_EPSILON
    }

    /// The zoom after one frame of smoothing with the given blend factor.
    pub open spec fn smoothed_zoom(self, zoom_blend: i64) -> i64 {
        if self.zoom_moving() {
            blend(self.zoom, self.target_zoom, min_of(zoom_blend, ONE))
        } else {
            self.target_zoom
        }
    }

    /// The centre after one frame of smoothing with the given blend factor.
    pub open spec fn smoothed_center(self, pan_blend: i64) -> Point {
        if self.center_moving() {
            Point {
                x: blend(self.center.x, self.target_center.x, min_of(pan_blend, ONE)),
                y: blend(self.center.y, self.target_center.y, min_of(pan_blend, ONE)),
            }
        } else {
            self.target_center
        }
    }

    /// The camera after one frame without a running animation.
    pub open spec fn spec_tick_smoothing(self, zoom_blend: i64, pan_blend: i64, viewport: Rect) -> Camera {
        let moved = Camera { zoom: self.smoothed_zoom(zoom_blend), center: self.smoothed_center(pan_blend), ..self };
        if self.zoom_moving() || self.center_moving() {
            moved.spec_clamp_center(viewport)
        } else {
            moved
        }
    }

    /// The camera after one frame.
    pub open spec fn spec_tick(self, dt: i64, zoom_blend: i64, pan_blend: i64, viewport: Rect) -> Camera {
        if self.animating {
            self.spec_tick_animating(dt, viewport)
        } else {
            self.spec_tick_smoothing(zoom_blend, pan_blend, viewport)
        }
    }

    /// Whether the camera is in motion during a frame that starts in this
    /// state.
    pub open spec fn in_motion(self) -> bool {
        self.animating || self.zoom_moving() || self.center_moving()
    }

    /// Advances the camera by one frame of `dt` seconds and returns whether it
    /// is still moving, so that another frame is needed.
    ///
    /// A running snap animation advances by `dt / SNAP_DURATION` and the pose
    /// follows the eased path from the start pose to the target; it ends
    /// exactly at the target. Otherwise zoom and centre each move the fraction
    /// `zoom_blend` resp. `pan_blend` (at most `1.0`) of the way to their
    /// targets, or jump there when they are within a small distance. The
    /// caller derives the two fractions from `dt`.
    pub fn tick(&mut self, dt: i64, zoom_blend: i64, pan_blend: i64, viewport: Rect) -> (moving: bool)
        ensures
            *final(self) == old(self).spec_tick(dt, zoom_blend, pan_blend, viewport),
            moving == old(self).in_motion(),
    {
        if self.animating {
            self.anim_progress = fx_add(self.anim_progress, fx_div(dt, SNAP_DURATION));
            if self.anim_progress >= ONE {
                self.anim_progress = ONE;
                self.animating = false;
                self.center = self.target_center;
                self.zoom = self.target_zoom;
            } else {
                let t: i64 = ease_out_cubic(self.anim_progress);
                self.center = Point {
                    x: lerp(self.anim_start_center.x, self.target_center.x, t),
                    y: lerp(self.anim_start_center.y, self.target_center.y, t),
                };
                self.zoom = lerp(self.anim_start_zoom, self.target_zoom, t);
            }
            self.clamp_center(viewport);
            return true;
        }
        let mut moving: bool = false;

        let zoom_diff: i64 = fx_abs(fx_sub(self.target_zoom, self.zoom));
        if zoom_diff > ZOOM_EPSILON {
            self.zoom = lerp(self.zoom, self.target_zoom, fx_min(zoom_blend, ONE));
            moving = true;
        } else if zoom_diff > 0 {
            self.zoom = self.target_zoom;
        }
        assert(self.zoom == old(self).smoothed_zoom(zoom_blend));

        let cx_diff: i64 = fx_abs(fx_sub(self.target_center.x, self.center.x));
        let cy_diff: i64 = fx_abs(fx_sub(self.target_center.y, self.center.y));
        if cx_diff > PAN_EPSILON || cy_diff > PAN_EPSILON {
            let f: i64 = fx_min(pan_blend, ONE);
            self.center = Point {
                x: lerp(self.center.x, self.target_center.x, f),
                y: lerp(self.center.y, self.target_center.y, f),
            };
            moving = true;
        } else {
            self.center = self.target_center;
        }

        if moving {
            self.clamp_center(viewport);
        }
        moving
    }

    /// The camera after zooming by `factor` about `world_focus`.
    pub open spec fn spec_scroll_zoom(self, factor: i64, world_focus: Point, viewport: Rect) -> Camera {
        let new_zoom = clamp_to(mul_sat(self.target_zoom, factor), MIN_ZOOM, MAX_ZOOM);
        let ratio = div_sat(self.target_zoom, new_zoom);
        (Camera {
            animating: false,
            target_center: Point {
                x: sub_sat(world_focus.x, mul_sat(sub_sat(world_focus.x, self.target_center.x), ratio)),
                y: sub_sat(world_focus.y, mul_sat(sub_sat(world_focus.y, self.target_center.y), ratio)),
            },
            target_zoom: new_zoom,
            ..self
        }).spec_clamp_center(viewport)
    }

    /// Multiplies the target zoom by `factor`, within the zoom bounds, and
    /// moves the target centre so that `world_focus` (the point under the
    /// cursor) keeps its place on the screen. Ends a running snap animation.
    /// The caller derives `factor` from the scroll distance.
    pub fn scroll_zoom(&mut self, factor: i64, world_focus: Point, viewport: Rect)
        ensures
            *final(self) == old(self).spec_scroll_zoom(factor, world_focus, viewport),
    {
        if self.animating {
            self.animating = false;
        }
        let new_zoom: i64 = fx_clamp(fx_mul(self.target_zoom, factor), MIN_ZOOM, MAX_ZOOM);

        let old_zoom: i64 = self.target_zoom;
        let ratio: i64 = fx_div(old_zoom, new_zoom);
        self.target_center = Point {
            x: fx_sub(world_focus.x, fx_mul(fx_sub(world_focus.x, self.target_center.x), ratio)),
            y: fx_sub(world_focus.y, fx_mul(fx_sub(world_focus.y, self.target_center.y), ratio)),
        };
        self.target_zoom = new_zoom;
        self.clamp_center(viewport);
    }

    /// The camera after panning by `world_delta`.
    pub open spec fn spec_drag_pan(self, world_delta: Offset, viewport: Rect) -> Camera {
        let moved = Point {
            x: sub_sat(self.target_center.x, world_delta.x),
            y: sub_sat(self.target_center.y, world_delta.y),
        };
        (Camera { animating: false, target_center: moved, center: moved, ..self }).spec_clamp_center(viewport)
    }

    /// Pans by a world-space distance at once, without smoothing. Ends a
    /// running snap animation.
    pub fn drag_pan(&mut self, world_delta: Offset, viewport: Rect)
        ensures
            *final(self) == old(self).spec_drag_pan(world_delta, viewport),
    {
        if self.animating {
            self.animating = false;
        }
        self.target_center = Point {
            x: fx_sub(self.target_center.x, world_delta.x),
            y: fx_sub(self.target_center.y, world_delta.y),
        };
        self.center = self.target_center;
        self.clamp_center(viewport);
    }

    /// The zoom at which `world_rect` fills the viewport on its constraining
    /// axis, within the zoom bounds.
    pub open spec fn fitting_zoom(world_rect: Rect, viewport: Rect) -> i64 {
        let zoom_w = div_sat(ONE, world_rect.spec_width());
        let zoom_h = div_sat(viewport.spec_height(), mul_sat(world_rect.spec_height(), viewport.spec_width()));
        clamp_to(min_of(zoom_w, zoom_h), MIN_ZOOM, MAX_ZOOM)
    }

    /// The camera at the start of a snap animation towards `world_rect`.
    pub open spec fn spec_snap_to(self, world_rect: Rect, viewport: Rect) -> Camera {
        let aimed = (Camera {
            anim_start_center: self.center,
            anim_start_zoom: self.zoom,
            target_center: world_rect.spec_center(),
            target_zoom: Self::fitting_zoom(world_rect, viewport),
            ..self
        }).spec_clamp_center(viewport);
        Camera { anim_progress: 0, animating: true, ..aimed }
    }

    /// Starts an eased animation from the current pose to the pose in which
    /// `world_rect` fills the viewport.
    pub fn snap_to(&mut self, world_rect: Rect, viewport: Rect)
        ensures
            *final(self) == old(self).spec_snap_to(world_rect, viewport),
    {
        self.anim_start_center = self.center;
        self.anim_start_zoom = self.zoom;

        self.target_center = world_rect.center();
        let zoom_w: i64 = fx_div(ONE, world_rect.width());
        let zoom_h: i64 = fx_div(viewport.height(), fx_mul(world_rect.height(), viewport.width()));
        self.target_zoom = fx_clamp(fx_min(zoom_w, zoom_h), MIN_ZOOM, MAX_ZOOM);

        self.clamp_center(viewport);

        self.anim_progress = 0;
        self.animating = true;
    }
}

} // verus!
