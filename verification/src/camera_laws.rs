//! What holds of the camera: clamping keeps the view inside the world,
//! projecting to the screen and back returns to the same point within the
//! rounding of the grid, and a snap animation ends at its target.

use vstd::prelude::*;
use crate::arith::lemma_floor_difference;
use crate::fixed::{ONE, HALF, add_sat, sub_sat, mul_sat, div_sat, min_of, clamp_to, lemma_div_sat_nonneg, lemma_mul_sat_nonneg};
use crate::geometry::{Point, Offset, Rect, midpoint};
use crate::camera::{Camera, MIN_ZOOM, MAX_ZOOM, SNAP_DURATION, clamped_point, half_width, half_height, eased, blend};

verus! {

/// A rectangle whose corners are in order and whose extents an `i64` holds.
pub open spec fn well_formed(r: Rect) -> bool {
    &&& r.min.x <= r.max.x
    &&& r.min.y <= r.max.y
    &&& r.max.x - r.min.x <= i64::MAX
    &&& r.max.y - r.min.y <= i64::MAX
}

/// A viewport with a positive width and a height that is not negative.
pub open spec fn usable(viewport: Rect) -> bool {
    &&& viewport.spec_width() > 0
    &&& viewport.spec_height() >= 0
}

/// Whether a view that extends `half` to either side of `c` is kept between
/// `lo` and `hi`: inside the range where the range is larger than the view,
/// in the middle of it otherwise.
pub open spec fn axis_kept(c: i64, half: i64, lo: i64, hi: i64) -> bool {
    if hi - lo > 2 * half {
        lo <= c - half && c + half <= hi
    } else {
        c == midpoint(lo, hi)
    }
}

/// Whether the view around `c` at `zoom` is kept inside `wr` on both axes.
pub open spec fn view_kept(c: Point, zoom: i64, viewport: Rect, wr: Rect) -> bool {
    &&& axis_kept(c.x, half_width(zoom), wr.min.x, wr.max.x)
    &&& axis_kept(c.y, half_height(zoom, viewport), wr.min.y, wr.max.y)
}

/// Whether both the rendered view and the target view of the camera are kept
/// inside its world rectangle.
pub open spec fn camera_kept(camera: Camera, viewport: Rect) -> bool {
    &&& view_kept(camera.center, camera.zoom, viewport, camera.world_rect)
    &&& view_kept(camera.target_center, camera.target_zoom, viewport, camera.world_rect)
}

/// The half extents of the view are not negative at a positive zoom.
pub proof fn lemma_half_extents_nonneg(zoom: i64, viewport: Rect)
    requires
        0 < zoom,
        usable(viewport),
    ensures
        0 <= half_width(zoom),
        0 <= half_height(zoom, viewport),
{
    lemma_div_sat_nonneg(HALF, zoom);
    lemma_div_sat_nonneg(viewport.spec_height(), viewport.spec_width());
    lemma_mul_sat_nonneg(div_sat(viewport.spec_height(), viewport.spec_width()), HALF);
    lemma_div_sat_nonneg(mul_sat(div_sat(viewport.spec_height(), viewport.spec_width()), HALF), zoom);
}

/// Clamping a centre keeps its view inside the world rectangle.
pub proof fn lemma_clamp_keeps_view(c: Point, zoom: i64, viewport: Rect, wr: Rect)
    requires
        0 < zoom,
        usable(viewport),
        well_formed(wr),
    ensures
        view_kept(clamped_point(c, zoom, viewport, wr), zoom, viewport, wr),
{
    lemma_half_extents_nonneg(zoom, viewport);
}

/// A centre whose view is kept inside the world rectangle is left where it is
/// by clamping.
pub proof fn lemma_clamp_leaves_kept(c: Point, zoom: i64, viewport: Rect, wr: Rect)
    requires
        0 < zoom,
        usable(viewport),
        well_formed(wr),
        view_kept(c, zoom, viewport, wr),
    ensures
        clamped_point(c, zoom, viewport, wr) == c,
{
    lemma_half_extents_nonneg(zoom, viewport);
}

/// Clamp invariant: after the centres have been clamped, the rendered view
/// and the target view both lie inside the world rectangle on each axis on
/// which the world is larger than the view, and are centred on the world on
/// each axis on which it is not.
pub proof fn lemma_clamp_center_keeps_view(camera: Camera, viewport: Rect)
    requires
        0 < camera.zoom,
        0 < camera.target_zoom,
        usable(viewport),
        well_formed(camera.world_rect),
    ensures
        camera_kept(camera.spec_clamp_center(viewport), viewport),
{
    lemma_clamp_keeps_view(camera.center, camera.zoom, viewport, camera.world_rect);
    lemma_clamp_keeps_view(camera.target_center, camera.target_zoom, viewport, camera.world_rect);
}

/// Clamp invariant after a drag: both views are kept inside the world.
pub proof fn lemma_drag_pan_keeps_view(camera: Camera, world_delta: Offset, viewport: Rect)
    requires
        0 < camera.zoom,
        0 < camera.target_zoom,
        usable(viewport),
        well_formed(camera.world_rect),
    ensures
        camera_kept(camera.spec_drag_pan(world_delta, viewport), viewport),
{
    let moved = Point {
        x: sub_sat(camera.target_center.x, world_delta.x),
        y: sub_sat(camera.target_center.y, world_delta.y),
    };
    lemma_clamp_center_keeps_view(Camera { animating: false, target_center: moved, center: moved, ..camera }, viewport);
}

/// Clamp invariant after a scroll zoom: both views are kept inside the world.
pub proof fn lemma_scroll_zoom_keeps_view(camera: Camera, factor: i64, world_focus: Point, viewport: Rect)
    requires
        0 < camera.zoom,
        usable(viewport),
        well_formed(camera.world_rect),
    ensures
        camera_kept(camera.spec_scroll_zoom(factor, world_focus, viewport), viewport),
        MIN_ZOOM <= camera.spec_scroll_zoom(factor, world_focus, viewport).target_zoom <= MAX_ZOOM,
{
    let new_zoom = clamp_to(mul_sat(camera.target_zoom, factor), MIN_ZOOM, MAX_ZOOM);
    let ratio = div_sat(camera.target_zoom, new_zoom);
    lemma_clamp_center_keeps_view(
        Camera {
            animating: false,
            target_center: Point {
                x: sub_sat(world_focus.x, mul_sat(sub_sat(world_focus.x, camera.target_center.x), ratio)),
                y: sub_sat(world_focus.y, mul_sat(sub_sat(world_focus.y, camera.target_center.y), ratio)),
            },
            target_zoom: new_zoom,
            ..camera
        },
        viewport,
    );
}


/// A camera whose zoom factors are positive, whose animation progress is not
/// negative and whose world rectangle is well formed.
pub open spec fn valid(camera: Camera) -> bool {
    &&& 0 < camera.zoom
    &&& 0 < camera.target_zoom
    &&& 0 < camera.anim_start_zoom
    &&& 0 <= camera.anim_progress
    &&& well_formed(camera.world_rect)
}

/// A fraction between nothing and all of a value lies between zero and the
/// value.
pub proof fn lemma_mul_sat_fraction(d: i64, t: i64)
    requires
        0 <= t <= ONE,
    ensures
        0 <= d ==> 0 <= mul_sat(d, t) <= d,
        d <= 0 ==> d <= mul_sat(d, t) <= 0,
{
    let one = ONE as int;
    assert(one == 4294967296);
    vstd::arithmetic::div_mod::lemma_div_multiples_vanish(d as int, one);
    assert((d * one) / one == d) by {
        assert(d * one == one * d) by (nonlinear_arith);
    }
    if 0 <= d {
        assert(0 <= d * t <= d * one) by (nonlinear_arith)
            requires
                0 <= d,
                0 <= t <= one,
        ;
        vstd::arithmetic::div_mod::lemma_div_is_ordered(0, d * t, one);
        vstd::arithmetic::div_mod::lemma_div_is_ordered(d * t, d * one, one);
    } else {
        assert(d * one <= d * t <= 0) by (nonlinear_arith)
            requires
                d <= 0,
                0 <= t <= one,
        ;
        vstd::arithmetic::div_mod::lemma_div_is_ordered(d * t, 0, one);
        vstd::arithmetic::div_mod::lemma_div_is_ordered(d * one, d * t, one);
    }
}

/// A blend of two positive values with a fraction between zero and one lies
/// between the two.
pub proof fn lemma_blend_between(from: i64, to: i64, t: i64)
    requires
        0 < from,
        0 < to,
        0 <= t <= ONE,
    ensures
        from <= to ==> from <= blend(from, to, t) <= to,
        to <= from ==> to <= blend(from, to, t) <= from,
{
    lemma_mul_sat_fraction(sub_sat(to, from), t);
}

/// Easing maps the range from zero to one into itself.
pub proof fn lemma_eased_range(t: i64)
    requires
        0 <= t <= ONE,
    ensures
        0 <= eased(t) <= ONE,
{
    let u = sub_sat(ONE, t);
    assert(0 <= u <= ONE);
    lemma_mul_sat_fraction(u, u);
    let uu = mul_sat(u, u);
    lemma_mul_sat_fraction(uu, u);
}

/// Clamp invariant after a frame: a valid camera stays valid, and both views
/// are kept inside the world, provided the camera moved in this frame or the
/// views were kept before it.
pub proof fn lemma_tick_keeps_view(camera: Camera, dt: i64, zoom_blend: i64, pan_blend: i64, viewport: Rect)
    requires
        valid(camera),
        usable(viewport),
        0 <= dt,
        0 <= zoom_blend,
        0 <= pan_blend,
        camera.in_motion() || camera_kept(camera, viewport),
    ensures
        valid(camera.spec_tick(dt, zoom_blend, pan_blend, viewport)),
        camera_kept(camera.spec_tick(dt, zoom_blend, pan_blend, viewport), viewport),
{
    if camera.animating {
        lemma_div_sat_nonneg(dt, SNAP_DURATION);
        let progress = add_sat(camera.anim_progress, div_sat(dt, SNAP_DURATION));
        if progress >= ONE {
            lemma_clamp_center_keeps_view(
                Camera {
                    anim_progress: ONE,
                    animating: false,
                    center: camera.target_center,
                    zoom: camera.target_zoom,
                    ..camera
                },
                viewport,
            );
        } else {
            let t = eased(progress);
            lemma_eased_range(progress);
            lemma_blend_between(camera.anim_start_zoom, camera.target_zoom, t);
            lemma_clamp_center_keeps_view(
                Camera {
                    anim_progress: progress,
                    center: Point {
                        x: blend(camera.anim_start_center.x, camera.target_center.x, t),
                        y: blend(camera.anim_start_center.y, camera.target_center.y, t),
                    },
                    zoom: blend(camera.anim_start_zoom, camera.target_zoom, t),
                    ..camera
                },
                viewport,
            );
        }
    } else {
        lemma_blend_between(camera.zoom, camera.target_zoom, min_of(zoom_blend, ONE));
        let moved = Camera {
            zoom: camera.smoothed_zoom(zoom_blend),
            center: camera.smoothed_center(pan_blend),
            ..camera
        };
        if camera.zoom_moving() || camera.center_moving() {
            lemma_clamp_center_keeps_view(moved, viewport);
        }
    }
}

/// Whether projecting the world coordinate `w` to the screen and back, with
/// the view centred at `c`, the viewport centred at `vc` and `scale` pixels
/// per world unit, stays clear of the ends of the number range.
pub open spec fn projects_exactly(w: i64, c: i64, scale: i64, vc: i64) -> bool {
    let d = w - c;
    let q = (d * scale) / (ONE as int);
    &&& i64::MIN < d - (ONE as int) / (scale as int) - 1
    &&& d <= i64::MAX
    &&& i64::MIN <= q <= i64::MAX
    &&& i64::MIN <= q + vc <= i64::MAX
    &&& i64::MIN <= w - (ONE as int) / (scale as int) - 1
}

/// One coordinate projected to the screen.
pub open spec fn axis_to_screen(w: i64, c: i64, scale: i64, vc: i64) -> i64 {
    add_sat(mul_sat(sub_sat(w, c), scale), vc)
}

/// One coordinate projected back from the screen.
pub open spec fn axis_to_world(s: i64, c: i64, scale: i64, vc: i64) -> i64 {
    add_sat(div_sat(sub_sat(s, vc), scale), c)
}

/// Projecting one coordinate to the screen and back gives a value that is not
/// above the one it started from and below it by at most the world size of one
/// step of the screen grid, plus one step of the world grid.
pub proof fn lemma_axis_round_trip(w: i64, c: i64, scale: i64, vc: i64)
    requires
        0 < scale,
        projects_exactly(w, c, scale, vc),
    ensures
        0 <= w - axis_to_world(axis_to_screen(w, c, scale, vc), c, scale, vc) <= (ONE as int) / (scale as int) + 1,
{
    let one = ONE as int;
    assert(one == 4294967296);
    let d = w - c;
    let q = (d * scale) / one;
    let sc = scale as int;
    assert(sub_sat(w, c) == d);
    assert(mul_sat(sub_sat(w, c), scale) == q);
    let s = axis_to_screen(w, c, scale, vc);
    assert(s == q + vc);
    assert(sub_sat(s, vc) == q);
    let back = (q * one) / sc;
    // q * one <= d * scale < q * one + one
    vstd::arithmetic::div_mod::lemma_fundamental_div_mod(d * scale, one);
    vstd::arithmetic::div_mod::lemma_mod_bound(d * scale, one);
    assert(q * one <= d * sc < q * one + one) by (nonlinear_arith)
        requires
            d * sc == one * q + (d * sc) % one,
            0 <= (d * sc) % one < one,
    ;
    // back * scale <= q * one < back * scale + scale
    vstd::arithmetic::div_mod::lemma_fundamental_div_mod(q * one, sc);
    vstd::arithmetic::div_mod::lemma_mod_bound(q * one, sc);
    assert(back * sc <= q * one < back * sc + sc) by (nonlinear_arith)
        requires
            q * one == sc * back + (q * one) % sc,
            0 <= (q * one) % sc < sc,
    ;
    assert(back <= d) by (nonlinear_arith)
        requires
            back * sc <= d * sc,
            0 < sc,
    ;
    let slack = one / sc;
    vstd::arithmetic::div_mod::lemma_fundamental_div_mod(one, sc);
    vstd::arithmetic::div_mod::lemma_mod_bound(one, sc);
    assert(d - back <= slack + 1) by (nonlinear_arith)
        requires
            d * sc < back * sc + sc + one,
            one == sc * slack + one % sc,
            0 <= one % sc < sc,
            0 < sc,
    ;
    assert(div_sat(sub_sat(s, vc), scale) == back);
    assert(axis_to_world(s, c, scale, vc) == back + c);
}

/// Camera round trip: a world point projected to the screen and back comes
/// out at most one screen step (in world units) plus one world step below
/// where it was on each axis, and never above, as long as the camera's scale
/// is positive and the projection stays clear of the ends of the number range.
pub proof fn lemma_round_trip(camera: Camera, p: Point, viewport: Rect)
    requires
        0 < camera.screen_scale(viewport),
        projects_exactly(p.x, camera.center.x, camera.screen_scale(viewport), viewport.spec_center().x),
        projects_exactly(p.y, camera.center.y, camera.screen_scale(viewport), viewport.spec_center().y),
    ensures
        ({
            let back = camera.spec_screen_to_world(camera.point_to_screen(p, viewport), viewport);
            let slack = (ONE as int) / (camera.screen_scale(viewport) as int) + 1;
            &&& 0 <= p.x - back.x <= slack
            &&& 0 <= p.y - back.y <= slack
        }),
{
    let scale = camera.screen_scale(viewport);
    let vc = viewport.spec_center();
    lemma_axis_round_trip(p.x, camera.center.x, scale, vc.x);
    lemma_axis_round_trip(p.y, camera.center.y, scale, vc.y);
}


/// The inputs of one frame: the time step and the two smoothing fractions.
pub ghost struct Frame {
    pub dt: i64,
    pub zoom_blend: i64,
    pub pan_blend: i64,
}

/// The camera after a sequence of frames.
pub open spec fn after_frames(camera: Camera, frames: Seq<Frame>, viewport: Rect) -> Camera
    decreases frames.len(),
{
    if frames.len() == 0 {
        camera
    } else {
        after_frames(
            camera.spec_tick(frames[0].dt, frames[0].zoom_blend, frames[0].pan_blend, viewport),
            frames.skip(1),
            viewport,
        )
    }
}

/// The animation progress that a sequence of frames adds up to.
pub open spec fn progress_of(frames: Seq<Frame>) -> int
    decreases frames.len(),
{
    if frames.len() == 0 {
        0
    } else {
        div_sat(frames[0].dt, SNAP_DURATION) + progress_of(frames.skip(1))
    }
}

/// Clamping a clamped centre again changes nothing.
pub proof fn lemma_clamp_idempotent(c: Point, zoom: i64, viewport: Rect, wr: Rect)
    ensures
        clamped_point(clamped_point(c, zoom, viewport, wr), zoom, viewport, wr) == clamped_point(c, zoom, viewport, wr),
{
}

/// A camera at rest at its target stays as it is, whatever frames follow.
pub proof fn lemma_rest_stays(camera: Camera, frames: Seq<Frame>, viewport: Rect)
    requires
        !camera.animating,
        camera.center == camera.target_center,
        camera.zoom == camera.target_zoom,
    ensures
        after_frames(camera, frames, viewport) == camera,
    decreases frames.len(),
{
    if frames.len() > 0 {
        assert(camera.spec_tick(frames[0].dt, frames[0].zoom_blend, frames[0].pan_blend, viewport) == camera);
        lemma_rest_stays(camera, frames.skip(1), viewport);
    }
}

/// A running animation whose target is already clamped ends at that target
/// once the frames add up to the rest of its duration.
pub proof fn lemma_animation_ends(camera: Camera, frames: Seq<Frame>, viewport: Rect)
    requires
        camera.animating,
        0 <= camera.anim_progress < ONE,
        camera.target_center == clamped_point(camera.target_center, camera.target_zoom, viewport, camera.world_rect),
        forall|i: int| 0 <= i < frames.len() ==> 0 <= (#[trigger] frames[i]).dt,
        camera.anim_progress + progress_of(frames) >= ONE,
    ensures
        ({
            let end = after_frames(camera, frames, viewport);
            &&& !end.animating
            &&& end.center == camera.target_center
            &&& end.zoom == camera.target_zoom
            &&& end.target_center == camera.target_center
            &&& end.target_zoom == camera.target_zoom
        }),
    decreases frames.len(),
{
    if frames.len() == 0 {
    } else {
        let frame = frames[0];
        let rest = frames.skip(1);
        let next = camera.spec_tick(frame.dt, frame.zoom_blend, frame.pan_blend, viewport);
        lemma_div_sat_nonneg(frame.dt, SNAP_DURATION);
        let progress = add_sat(camera.anim_progress, div_sat(frame.dt, SNAP_DURATION));
        lemma_clamp_idempotent(camera.target_center, camera.target_zoom, viewport, camera.world_rect);
        if progress >= ONE {
            assert(next.center == camera.target_center);
            lemma_rest_stays(next, rest, viewport);
        } else {
            assert(next.anim_progress == camera.anim_progress + div_sat(frame.dt, SNAP_DURATION));
            assert forall|i: int| 0 <= i < rest.len() implies 0 <= (#[trigger] rest[i]).dt by {
                assert(rest[i] == frames[i + 1]);
            }
            lemma_animation_ends(next, rest, viewport);
        }
    }
}

/// Snap convergence: after `snap_to`, once the frames add up to the duration
/// of the animation, the camera is no longer animating, rests at its target,
/// and the target is the centre of the rectangle, clamped into the world, at
/// the zoom at which the rectangle fills the viewport on its constraining
/// axis. Where the view around the centre of the rectangle lies inside the
/// world, the camera rests at that centre itself.
pub proof fn lemma_snap_converges(camera: Camera, rect: Rect, viewport: Rect, frames: Seq<Frame>)
    requires
        forall|i: int| 0 <= i < frames.len() ==> 0 <= (#[trigger] frames[i]).dt,
        progress_of(frames) >= ONE,
    ensures
        ({
            let end = after_frames(camera.spec_snap_to(rect, viewport), frames, viewport);
            let zoom = Camera::fitting_zoom(rect, viewport);
            &&& !end.animating
            &&& end.zoom == zoom
            &&& end.center == clamped_point(rect.spec_center(), zoom, viewport, camera.world_rect)
            &&& end.target_center == end.center
            &&& end.target_zoom == end.zoom
            &&& usable(viewport) && well_formed(camera.world_rect) && view_kept(
                rect.spec_center(),
                zoom,
                viewport,
                camera.world_rect,
            ) ==> end.center == rect.spec_center()
        }),
{
    let start = camera.spec_snap_to(rect, viewport);
    let zoom = Camera::fitting_zoom(rect, viewport);
    lemma_clamp_idempotent(rect.spec_center(), zoom, viewport, camera.world_rect);
    lemma_animation_ends(start, frames, viewport);
    if usable(viewport) && well_formed(camera.world_rect) && view_kept(rect.spec_center(), zoom, viewport, camera.world_rect) {
        lemma_clamp_leaves_kept(rect.spec_center(), zoom, viewport, camera.world_rect);
    }
}


/// Whether projecting the world coordinate `w` to the screen stays clear of
/// the ends of the number range.
pub open spec fn lands_exactly(w: i64, c: i64, scale: i64, vc: i64) -> bool {
    let d = w - c;
    let q = (d * scale) / (ONE as int);
    &&& i64::MIN <= d <= i64::MAX
    &&& i64::MIN <= q <= i64::MAX
    &&& i64::MIN <= q + vc <= i64::MAX
}

/// The extent on screen of a stretch of the world of length `len`, seen at
/// `scale` pixels per world unit, is the scaled length rounded down, or one
/// step more.
pub proof fn lemma_screen_extent(lo: i64, hi: i64, c: i64, scale: i64, vc: i64)
    requires
        0 <= scale,
        lo <= hi,
        lands_exactly(lo, c, scale, vc),
        lands_exactly(hi, c, scale, vc),
    ensures
        ({
            let extent = axis_to_screen(hi, c, scale, vc) - axis_to_screen(lo, c, scale, vc);
            let ideal = ((hi - lo) * scale) / (ONE as int);
            ideal <= extent <= ideal + 1
        }),
{
    let one = ONE as int;
    assert(one == 4294967296);
    let a = (lo - c) * scale;
    let b = (hi - c) * scale;
    assert(b - a == (hi - lo) * scale) by (nonlinear_arith)
        requires
            a == (lo - c) * scale,
            b == (hi - c) * scale,
    ;
    lemma_floor_difference(a, b, one);
}

/// Snap fills the width: at the zoom `1 / width` that `snap_to` aims for when
/// the width of a rectangle is what limits the zoom, the rectangle is as wide
/// on screen as the viewport, up to rounding: at most one step wider, and
/// narrower by no more than the steps lost in computing zoom and scale.
pub proof fn lemma_fitting_zoom_fills_width(camera: Camera, rect: Rect, viewport: Rect)
    requires
        0 < rect.max.x - rect.min.x <= i64::MAX,
        0 < viewport.spec_width(),
        camera.zoom == div_sat(ONE, rect.spec_width()),
        camera.zoom < i64::MAX,
        camera.screen_scale(viewport) < i64::MAX,
        lands_exactly(rect.min.x, camera.center.x, camera.screen_scale(viewport), viewport.spec_center().x),
        lands_exactly(rect.max.x, camera.center.x, camera.screen_scale(viewport), viewport.spec_center().x),
    ensures
        ({
            let screen = camera.spec_world_to_screen(rect, viewport);
            let rw = rect.spec_width() as int;
            let vw = viewport.spec_width() as int;
            let one = ONE as int;
            vw - ((rw * vw) / (one * one) + rw / one + 3) <= screen.max.x - screen.min.x <= vw + 1
        }),
{
    let one = ONE as int;
    assert(one == 4294967296);
    let rw = rect.spec_width() as int;
    let vw = viewport.spec_width() as int;
    let zoom = camera.zoom as int;
    let scale = camera.screen_scale(viewport) as int;
    assert(rw == rect.max.x - rect.min.x);
    // zoom == one * one / rw, rounded down
    assert(zoom == (one * one) / rw);
    vstd::arithmetic::div_mod::lemma_fundamental_div_mod(one * one, rw);
    vstd::arithmetic::div_mod::lemma_mod_bound(one * one, rw);
    let zr = (one * one) % rw;
    assert(one * one == rw * zoom + zr);
    assert(0 <= zoom) by (nonlinear_arith)
        requires
            one * one == rw * zoom + zr,
            0 <= zr < rw,
            0 < one,
    ;
    // scale == zoom * vw / one, rounded down
    assert(0 <= zoom * vw) by (nonlinear_arith)
        requires
            0 <= zoom,
            0 < vw,
    ;
    vstd::arithmetic::div_mod::lemma_div_pos_is_pos(zoom * vw, one);
    assert(scale == (zoom * vw) / one);
    vstd::arithmetic::div_mod::lemma_fundamental_div_mod(zoom * vw, one);
    vstd::arithmetic::div_mod::lemma_mod_bound(zoom * vw, one);
    let sr = (zoom * vw) % one;
    assert(zoom * vw == one * scale + sr);
    lemma_screen_extent(rect.min.x, rect.max.x, camera.center.x, camera.screen_scale(viewport), viewport.spec_center().x);
    let ideal = (rw * scale) / one;
    vstd::arithmetic::div_mod::lemma_fundamental_div_mod(rw * scale, one);
    vstd::arithmetic::div_mod::lemma_mod_bound(rw * scale, one);
    let ir = (rw * scale) % one;
    assert(rw * scale == one * ideal + ir);
    // Upper bound: rw * scale <= one * vw.
    assert(rw * scale * one <= one * one * vw) by (nonlinear_arith)
        requires
            one * one == rw * zoom + zr,
            zoom * vw == one * scale + sr,
            0 <= zr,
            0 <= sr,
            0 < vw,
            0 < rw,
            0 <= scale,
            0 < one,
    ;
    assert(ideal <= vw) by (nonlinear_arith)
        requires
            rw * scale * one <= one * one * vw,
            rw * scale == one * ideal + ir,
            0 <= ir,
            0 < one,
    ;
    // Lower bound.
    let loss_a = (rw * vw) / (one * one);
    let loss_b = rw / one;
    vstd::arithmetic::div_mod::lemma_fundamental_div_mod(rw * vw, one * one);
    vstd::arithmetic::div_mod::lemma_mod_bound(rw * vw, one * one);
    vstd::arithmetic::div_mod::lemma_fundamental_div_mod(rw, one);
    vstd::arithmetic::div_mod::lemma_mod_bound(rw, one);
    let ar = (rw * vw) % (one * one);
    let br = rw % one;
    assert(ideal >= vw - loss_a - loss_b - 3) by (nonlinear_arith)
        requires
            one * one == rw * zoom + zr,
            zoom * vw == one * scale + sr,
            rw * scale == one * ideal + ir,
            rw * vw == (one * one) * loss_a + ar,
            rw == one * loss_b + br,
            0 <= zr < rw,
            0 <= sr < one,
            0 <= ir < one,
            0 <= ar < one * one,
            0 <= br < one,
            0 < vw,
            0 < rw,
            one == 4294967296,
    ;
}


/// Snap fills the height: at the zoom `viewport height / (height * viewport
/// width)` that `snap_to` aims for when the height of a rectangle is what
/// limits the zoom, the rectangle is as high on screen as the viewport, up to
/// rounding: the steps lost or gained in computing zoom and scale.
pub proof fn lemma_fitting_zoom_fills_height(camera: Camera, rect: Rect, viewport: Rect)
    requires
        0 < rect.max.y - rect.min.y <= i64::MAX,
        0 < viewport.spec_width(),
        0 <= viewport.spec_height(),
        0 < mul_sat(rect.spec_height(), viewport.spec_width()) < i64::MAX,
        camera.zoom == div_sat(viewport.spec_height(), mul_sat(rect.spec_height(), viewport.spec_width())),
        camera.zoom < i64::MAX,
        camera.screen_scale(viewport) < i64::MAX,
        lands_exactly(rect.min.y, camera.center.y, camera.screen_scale(viewport), viewport.spec_center().y),
        lands_exactly(rect.max.y, camera.center.y, camera.screen_scale(viewport), viewport.spec_center().y),
    ensures
        ({
            let screen = camera.spec_world_to_screen(rect, viewport);
            let rh = rect.spec_height() as int;
            let vh = viewport.spec_height() as int;
            let one = ONE as int;
            let pixels = mul_sat(rect.spec_height(), viewport.spec_width()) as int;
            &&& vh - (pixels / one + rh / one + 3) <= screen.max.y - screen.min.y
            &&& screen.max.y - screen.min.y <= vh + (camera.zoom as int) / one + 2
        }),
{
    let one = ONE as int;
    assert(one == 4294967296);
    let rh = rect.spec_height() as int;
    let vw = viewport.spec_width() as int;
    let vh = viewport.spec_height() as int;
    let pixels = mul_sat(rect.spec_height(), viewport.spec_width()) as int;
    let zoom = camera.zoom as int;
    let scale = camera.screen_scale(viewport) as int;
    assert(rh == rect.max.y - rect.min.y);
    // pixels == rh * vw / one, rounded down
    assert(pixels == (rh * vw) / one);
    vstd::arithmetic::div_mod::lemma_fundamental_div_mod(rh * vw, one);
    vstd::arithmetic::div_mod::lemma_mod_bound(rh * vw, one);
    let pr = (rh * vw) % one;
    assert(rh * vw == one * pixels + pr);
    // zoom == vh * one / pixels, rounded down
    assert(0 <= vh * one) by (nonlinear_arith)
        requires
            0 <= vh,
            0 < one,
    ;
    vstd::arithmetic::div_mod::lemma_div_pos_is_pos(vh * one, pixels);
    assert(zoom == (vh * one) / pixels);
    vstd::arithmetic::div_mod::lemma_fundamental_div_mod(vh * one, pixels);
    vstd::arithmetic::div_mod::lemma_mod_bound(vh * one, pixels);
    let zr = (vh * one) % pixels;
    assert(vh * one == pixels * zoom + zr);
    // scale == zoom * vw / one, rounded down
    assert(0 <= zoom * vw) by (nonlinear_arith)
        requires
            0 <= zoom,
            0 < vw,
    ;
    vstd::arithmetic::div_mod::lemma_div_pos_is_pos(zoom * vw, one);
    assert(scale == (zoom * vw) / one);
    vstd::arithmetic::div_mod::lemma_fundamental_div_mod(zoom * vw, one);
    vstd::arithmetic::div_mod::lemma_mod_bound(zoom * vw, one);
    let sr = (zoom * vw) % one;
    assert(zoom * vw == one * scale + sr);
    lemma_screen_extent(rect.min.y, rect.max.y, camera.center.y, camera.screen_scale(viewport), viewport.spec_center().y);
    let ideal = (rh * scale) / one;
    vstd::arithmetic::div_mod::lemma_fundamental_div_mod(rh * scale, one);
    vstd::arithmetic::div_mod::lemma_mod_bound(rh * scale, one);
    let ir = (rh * scale) % one;
    assert(rh * scale == one * ideal + ir);
    let gain = zoom / one;
    let loss_a = pixels / one;
    let loss_b = rh / one;
    vstd::arithmetic::div_mod::lemma_fundamental_div_mod(zoom, one);
    vstd::arithmetic::div_mod::lemma_mod_bound(zoom, one);
    vstd::arithmetic::div_mod::lemma_fundamental_div_mod(pixels, one);
    vstd::arithmetic::div_mod::lemma_mod_bound(pixels, one);
    vstd::arithmetic::div_mod::lemma_fundamental_div_mod(rh, one);
    vstd::arithmetic::div_mod::lemma_mod_bound(rh, one);
    let gr = zoom % one;
    let ar = pixels % one;
    let br = rh % one;
    // Upper bound: rh * scale < vh * one + zoom.
    assert(rh * scale * one <= zoom * (rh * vw)) by (nonlinear_arith)
        requires
            zoom * vw == one * scale + sr,
            0 <= sr,
            0 < rh,
    ;
    assert(zoom * (rh * vw) <= zoom * (one * pixels + one)) by (nonlinear_arith)
        requires
            rh * vw == one * pixels + pr,
            0 <= pr < one,
            0 <= zoom,
    ;
    assert(zoom * (one * pixels + one) == one * (pixels * zoom) + one * zoom) by (nonlinear_arith);
    assert(rh * scale <= vh * one + zoom) by (nonlinear_arith)
        requires
            rh * scale * one <= one * (pixels * zoom) + one * zoom,
            vh * one == pixels * zoom + zr,
            0 <= zr,
            0 < one,
    ;
    assert(ideal <= vh + gain + 1) by (nonlinear_arith)
        requires
            rh * scale <= vh * one + zoom,
            rh * scale == one * ideal + ir,
            zoom == one * gain + gr,
            0 <= ir < one,
            0 <= gr < one,
            0 < one,
    ;
    // Lower bound: rh * scale > vh * one - pixels - rh.
    assert(rh * scale * one > rh * (zoom * vw) - rh * one) by (nonlinear_arith)
        requires
            zoom * vw == one * scale + sr,
            0 <= sr < one,
            0 < rh,
    ;
    assert(rh * (zoom * vw) >= zoom * (one * pixels)) by (nonlinear_arith)
        requires
            rh * vw == one * pixels + pr,
            0 <= pr,
            0 <= zoom,
    ;
    assert(zoom * (one * pixels) == one * (pixels * zoom)) by (nonlinear_arith);
    assert(rh * scale > vh * one - pixels - rh) by (nonlinear_arith)
        requires
            rh * scale * one > one * (pixels * zoom) - rh * one,
            vh * one == pixels * zoom + zr,
            0 <= zr < pixels,
            0 < one,
    ;
    assert(ideal >= vh - loss_a - loss_b - 3) by (nonlinear_arith)
        requires
            rh * scale > vh * one - pixels - rh,
            rh * scale == one * ideal + ir,
            pixels == one * loss_a + ar,
            rh == one * loss_b + br,
            0 <= ir < one,
            0 <= ar < one,
            0 <= br < one,
            0 < one,
    ;
}


/// Whether the zoom factors of the camera lie within the zoom bounds and the
/// progress of its animation is not negative.
pub open spec fn zoom_bounded(camera: Camera) -> bool {
    &&& MIN_ZOOM <= camera.zoom <= MAX_ZOOM
    &&& MIN_ZOOM <= camera.target_zoom <= MAX_ZOOM
    &&& MIN_ZOOM <= camera.anim_start_zoom <= MAX_ZOOM
    &&& 0 <= camera.anim_progress
}

/// Zoom bounds: a new camera with a zoom within the bounds, and a camera
/// after a reset, have their zoom factors within the bounds.
pub proof fn lemma_fresh_zoom_bounded(center: Point, zoom: i64, camera: Camera, world_rect: Rect)
    ensures
        MIN_ZOOM <= zoom <= MAX_ZOOM ==> zoom_bounded(Camera::spec_new(center, zoom)),
        zoom_bounded(camera) ==> zoom_bounded(camera.spec_reset(world_rect)),
{
}

/// Zoom bounds: scrolling, dragging and snapping keep the zoom factors within
/// the bounds.
pub proof fn lemma_input_keeps_zoom_bounded(
    camera: Camera,
    factor: i64,
    world_focus: Point,
    world_delta: Offset,
    rect: Rect,
    viewport: Rect,
)
    requires
        zoom_bounded(camera),
    ensures
        zoom_bounded(camera.spec_scroll_zoom(factor, world_focus, viewport)),
        zoom_bounded(camera.spec_drag_pan(world_delta, viewport)),
        zoom_bounded(camera.spec_snap_to(rect, viewport)),
{
}

/// Zoom bounds: a frame keeps the zoom factors within the bounds, so the
/// scale of the projection never becomes zero or negative.
pub proof fn lemma_tick_keeps_zoom_bounded(camera: Camera, dt: i64, zoom_blend: i64, pan_blend: i64, viewport: Rect)
    requires
        zoom_bounded(camera),
        0 <= dt,
        0 <= zoom_blend,
    ensures
        zoom_bounded(camera.spec_tick(dt, zoom_blend, pan_blend, viewport)),
{
    if camera.animating {
        lemma_div_sat_nonneg(dt, SNAP_DURATION);
        let progress = add_sat(camera.anim_progress, div_sat(dt, SNAP_DURATION));
        if progress < ONE {
            lemma_eased_range(progress);
            lemma_blend_between(camera.anim_start_zoom, camera.target_zoom, eased(progress));
        }
    } else {
        lemma_blend_between(camera.zoom, camera.target_zoom, min_of(zoom_blend, ONE));
    }
}


/// One coordinate of the target centre after a zoom from `zoom` to `new_zoom`
/// about the focus `f`, before clamping.
pub open spec fn refocused(c: i64, f: i64, zoom: i64, new_zoom: i64) -> i64 {
    sub_sat(f, mul_sat(sub_sat(f, c), div_sat(zoom, new_zoom)))
}

/// Whether moving the centre for a zoom about a focus stays clear of the ends
/// of the number range.
pub open spec fn refocuses_exactly(c: i64, f: i64, zoom: i64, new_zoom: i64) -> bool {
    let d = f - c;
    let ratio = (zoom * ONE) / (new_zoom as int);
    let moved = (d * ratio) / (ONE as int);
    &&& i64::MIN <= d <= i64::MAX
    &&& ratio <= i64::MAX
    &&& i64::MIN <= moved <= i64::MAX
    &&& i64::MIN <= f - moved <= i64::MAX
}

/// Focus-preserving zoom: a zoom moves the target centre so that the offset of
/// the focus from the centre, times the zoom, stays what it was, up to the
/// rounding of the ratio of the zooms and of the new offset. On screen the
/// focus therefore stays where it is, as long as clamping does not move the
/// centre.
pub proof fn lemma_scroll_zoom_keeps_focus(c: i64, f: i64, zoom: i64, new_zoom: i64)
    requires
        0 < zoom,
        0 < new_zoom,
        refocuses_exactly(c, f, zoom, new_zoom),
    ensures
        ({
            let before = (f - c) * zoom;
            let after = (f - refocused(c, f, zoom, new_zoom)) * new_zoom;
            let reach = if f >= c { f - c } else { c - f };
            let slack = (reach * new_zoom) / (ONE as int) + new_zoom + 1;
            before - slack <= after <= before + slack
        }),
{
    let one = ONE as int;
    assert(one == 4294967296);
    let d = f - c;
    let z = zoom as int;
    let zn = new_zoom as int;
    assert(0 <= z * one) by (nonlinear_arith)
        requires
            0 < z,
            0 < one,
    ;
    vstd::arithmetic::div_mod::lemma_div_pos_is_pos(z * one, zn);
    let ratio = (z * one) / zn;
    assert(div_sat(zoom, new_zoom) == ratio);
    vstd::arithmetic::div_mod::lemma_fundamental_div_mod(z * one, zn);
    vstd::arithmetic::div_mod::lemma_mod_bound(z * one, zn);
    let rr = (z * one) % zn;
    assert(z * one == zn * ratio + rr);
    let moved = (d * ratio) / one;
    assert(mul_sat(sub_sat(f, c), div_sat(zoom, new_zoom)) == moved);
    assert(f - refocused(c, f, zoom, new_zoom) == moved);
    vstd::arithmetic::div_mod::lemma_fundamental_div_mod(d * ratio, one);
    vstd::arithmetic::div_mod::lemma_mod_bound(d * ratio, one);
    let mr = (d * ratio) % one;
    assert(d * ratio == one * moved + mr);
    let reach = if d >= 0 { d } else { -d };
    let loss = (reach * zn) / one;
    assert(0 <= reach * zn) by (nonlinear_arith)
        requires
            0 <= reach,
            0 < zn,
    ;
    vstd::arithmetic::div_mod::lemma_fundamental_div_mod(reach * zn, one);
    vstd::arithmetic::div_mod::lemma_mod_bound(reach * zn, one);
    let lr = (reach * zn) % one;
    assert(reach * zn == one * loss + lr);
    // one * moved * zn == d * (z * one - rr) - mr * zn
    assert(one * (moved * zn) == one * (d * z) - d * rr - mr * zn) by (nonlinear_arith)
        requires
            z * one == zn * ratio + rr,
            d * ratio == one * moved + mr,
    ;
    assert(-(reach * zn) <= d * rr <= reach * zn) by (nonlinear_arith)
        requires
            0 <= rr < zn,
            reach == d || reach == -d,
            0 <= reach,
    ;
    assert(0 <= mr * zn <= one * zn) by (nonlinear_arith)
        requires
            0 <= mr < one,
            0 < zn,
    ;
    assert(d * z - loss - zn - 1 <= moved * zn <= d * z + loss + 1) by (nonlinear_arith)
        requires
            one * (moved * zn) == one * (d * z) - d * rr - mr * zn,
            -(reach * zn) <= d * rr <= reach * zn,
            0 <= mr * zn <= one * zn,
            reach * zn == one * loss + lr,
            0 <= lr < one,
            0 < one,
    ;
}


/// A scroll zoom moves the target centre about the focus on both axes, sets
/// the new target zoom, and clamps.
pub proof fn lemma_scroll_zoom_refocuses(camera: Camera, factor: i64, world_focus: Point, viewport: Rect)
    ensures
        ({
            let new_zoom = clamp_to(mul_sat(camera.target_zoom, factor), MIN_ZOOM, MAX_ZOOM);
            camera.spec_scroll_zoom(factor, world_focus, viewport) == (Camera {
                animating: false,
                target_center: Point {
                    x: refocused(camera.target_center.x, world_focus.x, camera.target_zoom, new_zoom),
                    y: refocused(camera.target_center.y, world_focus.y, camera.target_zoom, new_zoom),
                },
                target_zoom: new_zoom,
                ..camera
            }).spec_clamp_center(viewport)
        }),
{
}

} // verus!
