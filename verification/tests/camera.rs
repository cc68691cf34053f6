use spaceview::camera::{Camera, MAX_ZOOM, MIN_ZOOM, SNAP_DURATION};
use spaceview::fixed::{fx_add, fx_div, fx_mul, fx_sub, HALF, ONE};
use spaceview::geometry::{Offset, Point, Rect};

fn fx(v: f64) -> i64 {
    (v * 4294967296.0).round() as i64
}

fn pt(x: f64, y: f64) -> Point {
    Point { x: fx(x), y: fx(y) }
}

fn rect(x0: f64, y0: f64, x1: f64, y1: f64) -> Rect {
    Rect { min: pt(x0, y0), max: pt(x1, y1) }
}

fn viewport() -> Rect {
    rect(0.0, 0.0, 800.0, 600.0)
}

fn close(a: i64, b: i64, tolerance: i64) -> bool {
    (a - b).abs() <= tolerance
}

#[test]
fn fixed_point_arithmetic_rounds_down_and_saturates() {
    assert_eq!(fx_mul(fx(1.5), fx(2.0)), fx(3.0));
    assert_eq!(fx_mul(3, HALF), 1);
    assert_eq!(fx_mul(-3, HALF), -2);
    assert_eq!(fx_div(fx(1.0), fx(4.0)), fx(0.25));
    assert_eq!(fx_div(fx(-1.0), fx(3.0)), -1431655766);
    assert_eq!(fx_div(fx(1.0), fx(-3.0)), -1431655766);
    assert_eq!(fx_div(5, 0), i64::MAX);
    assert_eq!(fx_div(-5, 0), i64::MIN);
    assert_eq!(fx_div(0, 0), 0);
    assert_eq!(fx_add(i64::MAX, 1), i64::MAX);
    assert_eq!(fx_sub(i64::MIN, 1), i64::MIN);
    assert_eq!(fx_mul(i64::MAX, i64::MAX), i64::MAX);
    assert_eq!(fx_mul(i64::MAX, i64::MIN), i64::MIN);
}

#[test]
fn rect_measures() {
    let r = rect(1.0, 2.0, 4.0, 10.0);
    assert_eq!(r.width(), fx(3.0));
    assert_eq!(r.height(), fx(8.0));
    assert_eq!(r.center(), pt(2.5, 6.0));
    assert_eq!(r.short_side(), fx(3.0));
    assert!(r.contains(pt(1.0, 2.0)));
    assert!(r.contains(pt(4.0, 10.0)));
    assert!(!r.contains(pt(4.5, 5.0)));
    assert!(r.intersects(rect(4.0, 10.0, 5.0, 11.0)));
    assert!(!r.intersects(rect(4.1, 0.0, 5.0, 11.0)));
    assert_eq!(Rect::from_min_size(pt(1.0, 2.0), Offset { x: fx(3.0), y: fx(8.0) }), r);
    assert_eq!(Rect::from_min_max(pt(1.0, 2.0), pt(4.0, 10.0)), r);
}

#[test]
fn new_camera_is_at_rest_in_the_unit_square() {
    let c = Camera::new(pt(0.5, 0.5), ONE);
    assert_eq!(c.center, pt(0.5, 0.5));
    assert_eq!(c.target_center, pt(0.5, 0.5));
    assert_eq!(c.zoom, ONE);
    assert_eq!(c.target_zoom, ONE);
    assert!(!c.is_animating());
    assert_eq!(c.world_rect, rect(0.0, 0.0, 1.0, 1.0));
}

#[test]
fn reset_shows_the_whole_world() {
    let mut c = Camera::new(pt(0.1, 0.9), fx(7.0));
    c.snap_to(rect(0.0, 0.0, 0.5, 0.5), viewport());
    assert!(c.is_animating());
    c.reset(rect(0.0, 0.0, 1.0, 0.75));
    assert_eq!(c.center, pt(0.5, 0.375));
    assert_eq!(c.target_center, pt(0.5, 0.375));
    assert_eq!(c.zoom, ONE);
    assert_eq!(c.target_zoom, ONE);
    assert!(!c.is_animating());
    assert_eq!(c.world_rect, rect(0.0, 0.0, 1.0, 0.75));
}

#[test]
fn set_world_rect_changes_only_the_bounds() {
    let mut c = Camera::new(pt(0.5, 0.5), ONE);
    let before = c;
    c.set_world_rect(rect(0.0, 0.0, 1.0, 0.75));
    assert_eq!(c.world_rect, rect(0.0, 0.0, 1.0, 0.75));
    assert_eq!(Camera { world_rect: before.world_rect, ..c }, before);
}

#[test]
fn world_to_screen_is_the_affine_map() {
    let c = Camera::new(pt(0.5, 0.5), ONE);
    let screen = c.world_to_screen(rect(0.0, 0.0, 1.0, 0.75), viewport());
    assert_eq!(screen, rect(0.0, -100.0, 800.0, 500.0));
    let zoomed = Camera::new(pt(0.25, 0.25), fx(2.0));
    let screen = zoomed.world_to_screen(rect(0.25, 0.25, 0.5, 0.375), viewport());
    assert_eq!(screen, rect(400.0, 300.0, 800.0, 500.0));
}

#[test]
fn screen_to_world_is_the_inverse_map() {
    let c = Camera::new(pt(0.25, 0.25), fx(2.0));
    assert_eq!(c.screen_to_world(pt(400.0, 300.0), viewport()), pt(0.25, 0.25));
    assert_eq!(c.screen_to_world(pt(800.0, 500.0), viewport()), pt(0.5, 0.375));
    assert_eq!(c.screen_to_world(pt(0.0, 0.0), viewport()), pt(0.0, 0.0625));
}

#[test]
fn projection_round_trip_stays_within_tolerance() {
    let c = Camera::new(pt(0.3217, 0.4411), fx(37.25));
    let vp = rect(13.0, 7.0, 1013.0, 707.0);
    let mut x: u64 = 0x2545_f491_4f6c_dd1d;
    for _ in 0..2000 {
        x ^= x << 13;
        x ^= x >> 7;
        x ^= x << 17;
        let p = Point { x: (x % (ONE as u64)) as i64, y: ((x >> 32) % (ONE as u64)) as i64 };
        let on_screen = c.world_to_screen(Rect { min: p, max: p }, vp).min;
        let back = c.screen_to_world(on_screen, vp);
        // Never above, and below by at most one world step here, since a
        // pixel is far larger than a world step.
        assert!(0 <= p.x - back.x && p.x - back.x <= 1, "{:?} came back as {:?}", p, back);
        assert!(0 <= p.y - back.y && p.y - back.y <= 1, "{:?} came back as {:?}", p, back);
    }
}

#[test]
fn drag_pan_moves_at_once_and_clamps() {
    let vp = viewport();
    let mut c = Camera::new(pt(0.5, 0.5), fx(4.0));
    c.target_zoom = fx(4.0);
    c.drag_pan(Offset { x: fx(0.1), y: fx(-0.05) }, vp);
    assert_eq!(c.center, pt(0.4, 0.55));
    assert_eq!(c.target_center, c.center);
    // Half the view is 0.125 wide, so the centre stops at 0.125.
    c.drag_pan(Offset { x: fx(10.0), y: 0 }, vp);
    assert_eq!(c.center.x, fx(0.125));
    c.drag_pan(Offset { x: fx(-10.0), y: 0 }, vp);
    assert_eq!(c.center.x, fx(0.875));
    // Half the view is 0.75 * 0.5 / 4 high.
    c.drag_pan(Offset { x: 0, y: fx(10.0) }, vp);
    assert_eq!(c.center.y, fx(0.09375));
}

#[test]
fn drag_pan_centres_a_world_smaller_than_the_view() {
    let mut c = Camera::new(pt(0.5, 0.5), ONE);
    c.set_world_rect(rect(0.0, 0.0, 1.0, 0.5));
    c.drag_pan(Offset { x: fx(0.3), y: fx(0.2) }, viewport());
    // At zoom 1 the view is as wide as the world and higher than it.
    assert_eq!(c.center, pt(0.5, 0.25));
    assert_eq!(c.target_center, pt(0.5, 0.25));
}

#[test]
fn drag_pan_ends_a_snap_animation() {
    let mut c = Camera::new(pt(0.5, 0.5), ONE);
    c.snap_to(rect(0.0, 0.0, 0.5, 0.5), viewport());
    assert!(c.is_animating());
    c.drag_pan(Offset { x: 0, y: 0 }, viewport());
    assert!(!c.is_animating());
}

#[test]
fn scroll_zoom_keeps_the_focus_in_place() {
    let vp = viewport();
    let mut c = Camera::new(pt(0.5, 0.5), ONE);
    c.scroll_zoom(fx(2.0), pt(0.25, 0.25), vp);
    assert_eq!(c.target_zoom, fx(2.0));
    assert_eq!(c.target_center, pt(0.375, 0.375));
    // The rendered pose has not moved yet.
    assert_eq!(c.zoom, ONE);
    assert_eq!(c.center, pt(0.5, 0.5));
    // The focus is where it was on screen once the target is reached.
    let before = Camera::new(pt(0.5, 0.5), ONE).world_to_screen(rect(0.25, 0.25, 0.25, 0.25), vp);
    let after = Camera::new(c.target_center, c.target_zoom).world_to_screen(rect(0.25, 0.25, 0.25, 0.25), vp);
    assert_eq!(before, after);
}

#[test]
fn scroll_zoom_stays_within_the_zoom_bounds() {
    let vp = viewport();
    let mut c = Camera::new(pt(0.5, 0.5), ONE);
    c.scroll_zoom(fx(0.5), pt(0.5, 0.5), vp);
    assert_eq!(c.target_zoom, MIN_ZOOM);
    c.scroll_zoom(fx(100000.0), pt(0.5, 0.5), vp);
    assert_eq!(c.target_zoom, MAX_ZOOM);
    assert_eq!(MAX_ZOOM, fx(5000.0));
    assert_eq!(MIN_ZOOM, ONE);
}

#[test]
fn scroll_zoom_ends_a_snap_animation() {
    let mut c = Camera::new(pt(0.5, 0.5), ONE);
    c.snap_to(rect(0.0, 0.0, 0.5, 0.5), viewport());
    c.scroll_zoom(ONE, pt(0.5, 0.5), viewport());
    assert!(!c.is_animating());
}

#[test]
fn snap_to_aims_at_the_rectangle() {
    let vp = viewport();
    let mut c = Camera::new(pt(0.5, 0.5), ONE);
    c.snap_to(rect(0.25, 0.25, 0.5, 0.5), vp);
    assert!(c.is_animating());
    assert_eq!(c.anim_progress, 0);
    assert_eq!(c.anim_start_center, pt(0.5, 0.5));
    assert_eq!(c.anim_start_zoom, ONE);
    assert_eq!(c.target_center, pt(0.375, 0.375));
    // min(1 / 0.25, 0.75 / 0.25) = 3
    assert_eq!(c.target_zoom, fx(3.0));
    assert_eq!(c.center, pt(0.5, 0.5));
}

#[test]
fn snap_to_a_tiny_rectangle_stops_at_the_largest_zoom() {
    let mut c = Camera::new(pt(0.5, 0.5), ONE);
    c.snap_to(rect(0.5, 0.5, 0.500001, 0.500001), viewport());
    assert_eq!(c.target_zoom, MAX_ZOOM);
}

#[test]
fn tick_follows_the_eased_path_and_ends_at_the_target() {
    let vp = viewport();
    let mut c = Camera::new(pt(0.5, 0.5), ONE);
    c.snap_to(rect(0.25, 0.25, 0.5, 0.5), vp);
    // Half the duration: eased progress is 1 - 0.5^3 = 0.875.
    assert!(c.tick(SNAP_DURATION / 2, 0, 0, vp));
    assert!(c.is_animating());
    assert!(close(c.anim_progress, fx(0.5), 4));
    assert!(close(c.zoom, fx(1.0 + 2.0 * 0.875), 16));
    assert!(close(c.center.x, fx(0.5 - 0.125 * 0.875), 16));
    assert!(close(c.center.y, fx(0.5 - 0.125 * 0.875), 16));
    // The rest of the duration and a little more.
    assert!(c.tick(SNAP_DURATION / 2 + 10, 0, 0, vp));
    assert!(!c.is_animating());
    assert_eq!(c.anim_progress, ONE);
    assert_eq!(c.center, pt(0.375, 0.375));
    assert_eq!(c.zoom, fx(3.0));
    // At rest now.
    assert!(!c.tick(fx(0.016), fx(0.5), fx(0.5), vp));
    assert_eq!(c.center, pt(0.375, 0.375));
    assert_eq!(c.zoom, fx(3.0));
}

#[test]
fn snap_converges_after_enough_small_ticks() {
    let vp = viewport();
    let mut c = Camera::new(pt(0.5, 0.5), ONE);
    let target = rect(0.5, 0.25, 0.75, 0.4);
    c.snap_to(target, vp);
    let mut frames = 0;
    while c.tick(fx(0.02), fx(0.3), fx(0.3), vp) {
        frames += 1;
        assert!(frames < 100);
    }
    // 0.35 s in steps of 0.02 s: the eighteenth frame ends the animation.
    assert_eq!(frames, 18);
    assert!(!c.is_animating());
    assert_eq!(c.center, target.center());
    assert_eq!(c.center, c.target_center);
    assert_eq!(c.zoom, fx(4.0));
    // The rectangle fills the viewport across.
    let screen = c.world_to_screen(target, vp);
    assert_eq!(screen.min.x, vp.min.x);
    assert_eq!(screen.max.x, vp.max.x);
}

#[test]
fn tick_smooths_towards_the_target() {
    let vp = viewport();
    let mut c = Camera::new(pt(0.5, 0.5), fx(2.0));
    c.target_zoom = fx(4.0);
    c.target_center = pt(0.6, 0.5);
    assert!(c.tick(fx(0.016), fx(0.5), fx(0.25), vp));
    assert_eq!(c.zoom, fx(3.0));
    assert!(close(c.center.x, fx(0.525), 2));
    assert_eq!(c.center.y, fx(0.5));
    // A fraction above one is taken as one.
    assert!(c.tick(fx(0.016), fx(7.0), fx(7.0), vp));
    assert_eq!(c.zoom, fx(4.0));
    assert_eq!(c.center, pt(0.6, 0.5));
    assert!(!c.tick(fx(0.016), fx(0.5), fx(0.5), vp));
}

#[test]
fn tick_closes_small_differences_in_one_step() {
    let vp = viewport();
    let mut c = Camera::new(pt(0.5, 0.5), fx(2.0));
    c.target_zoom = fx(2.0005);
    c.target_center = pt(0.500005, 0.5);
    assert!(!c.tick(fx(0.016), fx(0.1), fx(0.1), vp));
    assert_eq!(c.zoom, fx(2.0005));
    assert_eq!(c.center, pt(0.500005, 0.5));
}

#[test]
fn views_stay_inside_the_world_after_every_input() {
    let vp = viewport();
    let mut c = Camera::new(pt(0.5, 0.5), ONE);
    c.set_world_rect(rect(0.0, 0.0, 1.0, 0.75));
    let inside = |c: &Camera| {
        for (center, zoom) in [(c.center, c.zoom), (c.target_center, c.target_zoom)] {
            let half_w = fx_div(HALF, zoom);
            let half_h = fx_div(fx_mul(fx_div(vp.height(), vp.width()), HALF), zoom);
            if c.world_rect.width() > 2 * half_w {
                assert!(c.world_rect.min.x <= center.x - half_w && center.x + half_w <= c.world_rect.max.x);
            } else {
                assert_eq!(center.x, c.world_rect.center().x);
            }
            if c.world_rect.height() > 2 * half_h {
                assert!(c.world_rect.min.y <= center.y - half_h && center.y + half_h <= c.world_rect.max.y);
            } else {
                assert_eq!(center.y, c.world_rect.center().y);
            }
        }
    };
    let mut x: u64 = 0x1234_5678_9abc_def1;
    for step in 0..3000 {
        x ^= x << 13;
        x ^= x >> 7;
        x ^= x << 17;
        let a = fx(((x & 0xffff) as f64) / 65536.0);
        let b = fx((((x >> 16) & 0xffff) as f64) / 65536.0);
        match step % 4 {
            0 => c.scroll_zoom(fx(0.5) + 2 * a, Point { x: a, y: b }, vp),
            1 => c.drag_pan(Offset { x: a - HALF, y: b - HALF }, vp),
            2 => c.snap_to(Rect { min: Point { x: a / 2, y: b / 2 }, max: Point { x: a / 2 + b / 4 + 1000, y: b / 2 + a / 4 + 1000 } }, vp),
            _ => {
                let moved = c.tick(fx(0.1), a, b, vp);
                if !moved {
                    continue;
                }
            }
        }
        inside(&c);
        assert!(c.target_zoom >= MIN_ZOOM && c.target_zoom <= MAX_ZOOM);
    }
}
