//! The magnifier on double-precision numbers.
use cosmic_zoom::config::{ZoomConfig, ZoomMovement};
use cosmic_zoom::double::Double;
use cosmic_zoom::geometry::{Global, Local, Output, Point, Rectangle, Size};
use cosmic_zoom::menu::{place_menu, Alignment, Anchor};
use cosmic_zoom::message::ZoomMessage;
use cosmic_zoom::output_zoom::{overlay_scale, overlay_size, LevelChange, OutputZoomState};
use cosmic_zoom::program::{zoom_step, Control, Direction, Icon, ZoomProgram};
use cosmic_zoom::scalar::{clamp, Arith, Scalar};
use cosmic_zoom::zoom_state::ZoomState;

#[derive(Clone, Copy, Debug, PartialEq)]
struct F(f64);

impl Arith for F {
    fn whole(value: i64) -> F {
        F(value as f64)
    }
    fn plus(self, other: F) -> F {
        F(self.0 + other.0)
    }
    fn minus(self, other: F) -> F {
        F(self.0 - other.0)
    }
    fn times(self, other: F) -> F {
        F(self.0 * other.0)
    }
    fn over(self, other: F) -> F {
        F(self.0 / other.0)
    }
    fn negated(self) -> F {
        F(-self.0)
    }
    fn below(self, other: F) -> bool {
        self.0 < other.0
    }
    fn at_most(self, other: F) -> bool {
        self.0 <= other.0
    }
    fn same(self, other: F) -> bool {
        self.0 == other.0
    }
    fn lesser(self, other: F) -> F {
        F(self.0.min(other.0))
    }
    fn eased(from: F, to: F, elapsed: u64, duration: u64) -> F {
        let part = elapsed as f32 / duration as f32;
        F(keyframe::ease(keyframe::functions::Linear, from.0, to.0, part))
    }
}

impl Scalar for F {
    fn nearest(self) -> F {
        F(self.0.round())
    }
    fn integer(self) -> i32 {
        self.0 as i32
    }
    fn natural(self) -> u32 {
        self.0 as u32
    }
    fn from_int(value: i64) -> F {
        F::whole(value)
    }
    fn add(self, other: F) -> F {
        self.plus(other)
    }
    fn sub(self, other: F) -> F {
        self.minus(other)
    }
    fn mul(self, other: F) -> F {
        self.times(other)
    }
    fn div(self, other: F) -> F {
        self.over(other)
    }
    fn neg(self) -> F {
        self.negated()
    }
    fn lt(self, other: F) -> bool {
        self.below(other)
    }
    fn le(self, other: F) -> bool {
        self.at_most(other)
    }
    fn eq(self, other: F) -> bool {
        self.same(other)
    }
    fn min(self, other: F) -> F {
        self.lesser(other)
    }
    fn ease(from: F, to: F, elapsed: u64, duration: u64) -> F {
        F::eased(from, to, elapsed, duration)
    }
    fn round(self) -> F {
        self.nearest()
    }
    fn to_i32(self) -> i32 {
        self.integer()
    }
    fn to_u32(self) -> u32 {
        self.natural()
    }
}

const MS: u64 = 1_000_000;
const DURATION: u64 = 200 * MS;

fn local(x: f64, y: f64) -> Point<F, Local> {
    Point::new(F(x), F(y))
}

fn global(x: f64, y: f64) -> Point<F, Global> {
    Point::new(F(x), F(y))
}

fn output(x: i32, y: i32, w: i32, h: i32) -> Output {
    Output { loc: Point::new(x, y), size: Size::new(w, h) }
}

fn config(view_moves: ZoomMovement) -> ZoomConfig {
    ZoomConfig { show_overlay: true, increment: 50, view_moves }
}

fn zoomed(view_moves: ZoomMovement, level: f64) -> OutputZoomState<F> {
    OutputZoomState::new(&config(view_moves), F(level), DURATION)
}

fn coords<K>(p: Point<F, K>) -> (f64, f64) {
    (p.x.0, p.y.0)
}

fn sides<K>(r: Rectangle<F, K>) -> (f64, f64, f64, f64) {
    (r.loc.x.0, r.loc.y.0, r.size.w.0, r.size.h.0)
}

#[test]
fn a_new_state_starts_at_the_corner_without_animations() {
    let zoom = zoomed(ZoomMovement::OnEdge, 1.5);
    assert_eq!(zoom.target_level(), F(1.5));
    assert_eq!(zoom.animating_level(7), F(1.5));
    assert_eq!(coords(zoom.focal_point), (0.0, 0.0));
    assert_eq!(coords(zoom.pointer_position), (0.0, 0.0));
    assert_eq!(zoom.movement, ZoomMovement::OnEdge);
    assert!(zoom.show_overlay);
    assert!(!zoom.is_animating());
}

#[test]
fn zoomed_geometry_is_taken_around_the_focal_point() {
    let mut zoom = zoomed(ZoomMovement::Continuously, 2.0);
    zoom.focal_point = local(400.0, 200.0);
    let out = output(1000, 50, 800, 600);
    assert_eq!(sides(zoom.zoomed_geometry(&out, None)), (200.0, 100.0, 400.0, 300.0));
    assert_eq!(
        sides(zoom.zoomed_geometry_global(&out, None, 0)),
        (1200.0, 150.0, 400.0, 300.0)
    );
    let part = Rectangle::new(local(0.0, 0.0), Size::new(F(400.0), F(400.0)));
    assert_eq!(sides(zoom.zoomed_geometry(&out, Some(part))), (200.0, 100.0, 200.0, 200.0));
    let part = Rectangle::new(global(1000.0, 50.0), Size::new(F(400.0), F(400.0)));
    assert_eq!(
        sides(zoom.zoomed_geometry_global(&out, Some(part), 0)),
        (1200.0, 150.0, 200.0, 200.0)
    );
}

#[test]
fn local_geometry_follows_the_target_and_global_geometry_the_animation() {
    let mut zoom = zoomed(ZoomMovement::Continuously, 4.0);
    zoom.previous_level = Some((F(2.0), 0));
    let out = output(0, 0, 800, 600);
    assert_eq!(sides(zoom.zoomed_geometry(&out, None)), (0.0, 0.0, 200.0, 150.0));
    assert_eq!(sides(zoom.zoomed_geometry_global(&out, None, 0)), (0.0, 0.0, 400.0, 300.0));
}

#[test]
fn screen_space_is_measured_from_the_magnified_corner() {
    let mut zoom = zoomed(ZoomMovement::Continuously, 2.0);
    zoom.focal_point = local(400.0, 200.0);
    let out = output(1000, 50, 800, 600);
    assert_eq!(
        coords(zoom.global_pos_to_screen_space(global(1300.0, 200.0), &out, 0)),
        (200.0, 100.0)
    );
}

#[test]
fn the_focal_point_stays_in_place() {
    let mut zoom = zoomed(ZoomMovement::Continuously, 4.0);
    zoom.focal_point = local(320.0, 64.0);
    let out = output(256, -128, 1024, 512);
    let p = zoom.global_pos_to_screen_space(out.to_global(zoom.focal_point), &out, 0);
    assert_eq!(coords(p), (320.0, 64.0));
}

#[test]
fn level_one_shows_everything() {
    let mut zoom = zoomed(ZoomMovement::Continuously, 1.0);
    zoom.focal_point = local(123.0, 45.0);
    let out = output(10, 20, 800, 600);
    assert_eq!(sides(zoom.zoomed_geometry_global(&out, None, 0)), (10.0, 20.0, 800.0, 600.0));
    assert!(zoom.refresh(0));
}

#[test]
fn continuous_movement_puts_the_focus_on_the_pointer() {
    let mut zoom = zoomed(ZoomMovement::Continuously, 2.0);
    let out = output(0, 0, 800, 600);
    zoom.update_pointer_position(&out, local(30.0, 40.0), 0);
    assert_eq!(coords(zoom.focal_point), (30.0, 40.0));
    let p = zoom.global_pos_to_screen_space(global(30.0, 40.0), &out, 0);
    assert_eq!(coords(p), (30.0, 40.0));
}

#[test]
fn an_unmoved_pointer_changes_nothing() {
    let mut zoom = zoomed(ZoomMovement::Continuously, 2.0);
    zoom.focal_point = local(5.0, 6.0);
    let out = output(0, 0, 800, 600);
    zoom.update_pointer_position(&out, local(0.0, 0.0), 0);
    assert_eq!(coords(zoom.focal_point), (5.0, 6.0));
}

#[test]
fn at_the_edge_nothing_moves_while_the_pointer_is_calm() {
    let mut zoom = zoomed(ZoomMovement::OnEdge, 2.0);
    zoom.focal_point = local(400.0, 300.0);
    let out = output(0, 0, 800, 600);
    // The view is (200, 150) to (600, 450), its margin six wide.
    zoom.update_pointer_position(&out, local(206.0, 156.0), 0);
    assert_eq!(coords(zoom.focal_point), (400.0, 300.0));
    zoom.update_pointer_position(&out, local(593.0, 443.0), 0);
    assert_eq!(coords(zoom.focal_point), (400.0, 300.0));
}

#[test]
fn at_the_edge_the_focus_moves_by_the_overshoot() {
    let out = output(0, 0, 800, 600);
    let mut zoom = zoomed(ZoomMovement::OnEdge, 2.0);
    zoom.focal_point = local(400.0, 300.0);
    zoom.update_pointer_position(&out, local(196.0, 300.0), 0);
    assert_eq!(coords(zoom.focal_point), (390.0, 300.0));
    let mut zoom = zoomed(ZoomMovement::OnEdge, 2.0);
    zoom.focal_point = local(400.0, 300.0);
    zoom.update_pointer_position(&out, local(604.0, 460.0), 0);
    assert_eq!(coords(zoom.focal_point), (410.0, 316.0));
}

#[test]
fn at_the_edge_the_focus_is_held_on_the_output() {
    let out = output(0, 0, 800, 600);
    let mut zoom = zoomed(ZoomMovement::OnEdge, 2.0);
    zoom.focal_point = local(795.0, 2.0);
    // The view is (397.5, 1) to (797.5, 301).
    zoom.update_pointer_position(&out, local(799.0, 0.0), 0);
    assert_eq!(coords(zoom.focal_point), (799.0, 0.0));
}

#[test]
fn at_the_edge_the_overshoot_shrinks_with_the_level() {
    let out = output(0, 0, 800, 600);
    let mut zoom = zoomed(ZoomMovement::OnEdge, 2.0);
    zoom.focal_point = local(400.0, 300.0);
    zoom.update_pointer_position(&out, local(626.0, 300.0), 0);
    // Thirty-two outside of 594 before, half of that outside of 610 now.
    assert_eq!(coords(zoom.focal_point), (432.0, 300.0));
    assert_eq!(sides(zoom.zoomed_geometry(&out, None)), (216.0, 150.0, 400.0, 300.0));
}

#[test]
fn centered_movement_shows_the_pointer_in_the_middle() {
    let out = output(0, 0, 800, 600);
    let mut zoom = zoomed(ZoomMovement::Centered, 2.0);
    zoom.update_pointer_position(&out, local(500.0, 250.0), 0);
    assert_eq!(coords(zoom.focal_point), (600.0, 200.0));
    let p = zoom.global_pos_to_screen_space(global(500.0, 250.0), &out, 0);
    assert_eq!(coords(p), (400.0, 300.0));
}

#[test]
fn centered_movement_stops_at_the_edges() {
    let out = output(0, 0, 800, 600);
    let mut zoom = zoomed(ZoomMovement::Centered, 2.0);
    zoom.update_pointer_position(&out, local(790.0, 599.0), 0);
    assert_eq!(coords(zoom.focal_point), (800.0, 600.0));
    assert_eq!(sides(zoom.zoomed_geometry(&out, None)), (400.0, 300.0, 400.0, 300.0));
    zoom.update_pointer_position(&out, local(1.0, 2.0), 0);
    assert_eq!(coords(zoom.focal_point), (0.0, 0.0));
}

#[test]
fn centered_movement_has_no_focus_at_level_one() {
    let out = output(0, 0, 800, 600);
    let mut zoom = zoomed(ZoomMovement::Centered, 1.0);
    assert!(zoom.can_update_focal_point(&out, 0));
    zoom.update_pointer_position(&out, local(500.0, 250.0), 0);
    assert!(zoom.focal_point.x.0.is_nan());
    assert!(zoom.focal_point.y.0.is_nan());
}

#[test]
fn the_focus_cannot_be_set_without_pixels_or_below_level_one() {
    let empty = output(0, 0, 0, 600);
    let full = output(0, 0, 800, 600);
    assert!(!zoomed(ZoomMovement::OnEdge, 2.0).can_update_focal_point(&empty, 0));
    assert!(zoomed(ZoomMovement::Continuously, 2.0).can_update_focal_point(&empty, 0));
    assert!(!zoomed(ZoomMovement::Centered, 0.5).can_update_focal_point(&full, 0));
    assert!(zoomed(ZoomMovement::Centered, 2.0).can_update_focal_point(&full, 0));
    assert!(zoomed(ZoomMovement::OnEdge, 2.0).can_update_focal_point(&full, 0));
}

#[test]
fn a_level_is_changed_at_once() {
    let out = output(0, 0, 800, 600);
    let mut zoom = zoomed(ZoomMovement::Continuously, 1.0);
    let change = zoom.update_level(&out, local(100.0, 50.0), F(1.2345), false, 25, 9);
    assert_eq!(
        change,
        Some(LevelChange {
            scale: Some(F(1.23)),
            follow: false,
            message: ZoomMessage::Update {
                level: F(1.2345),
                increment: 25,
                movement: ZoomMovement::Continuously,
            },
        })
    );
    assert_eq!(zoom.target_level(), F(1.2345));
    assert_eq!(zoom.animating_level(9), F(1.2345));
    assert_eq!(coords(zoom.focal_point), (100.0, 50.0));
    assert!(!zoom.is_animating());
}

#[test]
fn the_overlay_is_drawn_at_four_times_its_size_at_most() {
    let out = output(0, 0, 800, 600);
    let mut zoom = zoomed(ZoomMovement::Continuously, 1.0);
    let change = zoom.update_level(&out, local(0.0, 0.0), F(7.0), false, 25, 9).unwrap();
    assert_eq!(change.scale, Some(F(4.0)));
    assert_eq!(overlay_scale(F(3.999)), F(3.999));
    assert_eq!(overlay_scale(F(9.0)), F(4.0));
}

#[test]
fn a_hidden_overlay_is_not_scaled() {
    let out = output(0, 0, 800, 600);
    let mut zoom = zoomed(ZoomMovement::Continuously, 1.0);
    zoom.show_overlay = false;
    let change = zoom.update_level(&out, local(0.0, 0.0), F(2.0), false, 25, 9).unwrap();
    assert_eq!((change.scale, change.follow), (None, false));
    let change = zoom.update_level(&out, local(0.0, 0.0), F(3.0), true, 25, 9).unwrap();
    assert_eq!((change.scale, change.follow), (None, false));
}

#[test]
fn the_present_level_only_moves_the_pointer() {
    let out = output(0, 0, 800, 600);
    let mut zoom = zoomed(ZoomMovement::Continuously, 2.0);
    assert_eq!(zoom.update_level(&out, local(100.0, 50.0), F(2.0), true, 25, 9), None);
    assert_eq!(coords(zoom.pointer_position), (100.0, 50.0));
    assert_eq!(coords(zoom.focal_point), (0.0, 0.0));
    assert!(!zoom.is_animating());
}

#[test]
fn levels_are_held_in_range() {
    let out = output(0, 0, 800, 600);
    let mut zoom = zoomed(ZoomMovement::Continuously, 2.0);
    zoom.update_level(&out, local(0.0, 0.0), F(0.25), false, 25, 9);
    assert_eq!(zoom.target_level(), F(1.0));
    zoom.update_level(&out, local(0.0, 0.0), F(1000.0), false, 25, 9);
    assert_eq!(zoom.target_level(), F(100.0));
}

#[test]
fn a_level_is_animated_from_the_level_shown() {
    let out = output(0, 0, 800, 600);
    let mut zoom = zoomed(ZoomMovement::Continuously, 1.0);
    let change = zoom.update_level(&out, local(10.0, 10.0), F(3.0), true, 50, 0).unwrap();
    assert_eq!((change.scale, change.follow), (None, true));
    assert!(zoom.is_animating());
    assert_eq!(zoom.target_level(), F(3.0));
    assert_eq!(zoom.animating_level(0), F(1.0));
    assert_eq!(zoom.animating_level(50 * MS), F(1.5));
    assert_eq!(zoom.animating_level(100 * MS), F(2.0));
    assert_eq!(zoom.animating_level(200 * MS), F(3.0));
    assert_eq!(zoom.animating_level(900 * MS), F(3.0));
    // Half way there, another change goes on from where the first one is.
    zoom.update_level(&out, local(10.0, 10.0), F(1.0), true, 50, 100 * MS);
    assert_eq!(zoom.animating_level(100 * MS), F(2.0));
    assert_eq!(zoom.animating_level(200 * MS), F(1.5));
    assert_eq!(zoom.follow_animation(200 * MS), Some(F(1.5)));
}

#[test]
fn an_animation_counts_whole_milliseconds() {
    let mut zoom = zoomed(ZoomMovement::Continuously, 3.0);
    zoom.previous_level = Some((F(1.0), 0));
    assert_eq!(zoom.animating_level(50 * MS + 999_999), F(1.5));
}

#[test]
fn a_clock_before_the_start_shows_the_start() {
    let mut zoom = zoomed(ZoomMovement::Continuously, 3.0);
    zoom.previous_level = Some((F(1.0), 500 * MS));
    assert_eq!(zoom.animating_level(0), F(1.0));
    assert!(!zoom.refresh(0));
}

#[test]
fn an_animated_level_at_the_edge_animates_the_focus_too() {
    let out = output(0, 0, 800, 600);
    let mut zoom = zoomed(ZoomMovement::OnEdge, 2.0);
    zoom.focal_point = local(400.0, 300.0);
    zoom.update_level(&out, local(590.0, 300.0), F(4.0), true, 50, 0);
    assert_eq!(zoom.previous_point.map(|(p, t)| (coords(p), t)), Some(((400.0, 300.0), 0)));
    // The view at the new level is (300, 225) to (500, 375), its margin three wide.
    assert_eq!(coords(zoom.focal_point), (493.0, 300.0));
    assert_eq!(coords(zoom.animating_focal_point(&out, 0)), (400.0, 300.0));
    let mut other = zoomed(ZoomMovement::Centered, 2.0);
    other.update_level(&out, local(590.0, 300.0), F(4.0), true, 50, 0);
    assert!(other.previous_point.is_none());
}

#[test]
fn refresh_ends_the_animation_of_the_level() {
    let mut zoom = zoomed(ZoomMovement::Continuously, 1.0);
    zoom.previous_level = Some((F(2.0), 0));
    assert!(!zoom.refresh(DURATION));
    assert!(zoom.is_animating());
    assert!(zoom.refresh(DURATION + 1));
    assert!(!zoom.is_animating());
    let mut zoom = zoomed(ZoomMovement::Continuously, 2.0);
    assert!(!zoom.refresh(0));
}

#[test]
fn a_new_movement_is_animated_from_the_present_focus() {
    let out = output(0, 0, 800, 600);
    let mut zoom = zoomed(ZoomMovement::Continuously, 2.0);
    zoom.update_pointer_position(&out, local(500.0, 250.0), 0);
    let mut changed = config(ZoomMovement::Centered);
    changed.show_overlay = false;
    changed.increment = 75;
    let message = zoom.update_config(&out, &changed, 0);
    assert_eq!(
        message,
        ZoomMessage::Update { level: F(2.0), increment: 75, movement: ZoomMovement::Centered }
    );
    assert!(!zoom.show_overlay);
    assert_eq!(coords(zoom.focal_point), (600.0, 200.0));
    assert_eq!(coords(zoom.animating_focal_point(&out, 0)), (500.0, 250.0));
    assert_eq!(coords(zoom.animating_focal_point(&out, 100 * MS)), (550.0, 225.0));
    assert_eq!(coords(zoom.animating_focal_point(&out, DURATION)), (600.0, 200.0));
    assert!(zoom.is_animating());
    assert_eq!(coords(zoom.animating_focal_point(&out, DURATION + 1)), (600.0, 200.0));
    assert!(!zoom.is_animating());
    assert_eq!(zoom.follow_animation(DURATION + 1), None);
}

#[test]
fn the_same_movement_is_not_animated() {
    let out = output(0, 0, 800, 600);
    let mut zoom = zoomed(ZoomMovement::Continuously, 2.0);
    zoom.update_config(&out, &config(ZoomMovement::Continuously), 0);
    assert!(!zoom.is_animating());
}

#[test]
fn an_animation_follows_the_pointer() {
    let out = output(0, 0, 800, 600);
    let mut zoom = zoomed(ZoomMovement::Continuously, 2.0);
    zoom.pointer_position = local(80.0, 60.0);
    assert_eq!(coords(zoom.animating_focal_point(&out, 0)), (0.0, 0.0));
    zoom.previous_level = Some((F(1.0), 0));
    assert_eq!(coords(zoom.animating_focal_point(&out, 0)), (80.0, 60.0));
}

#[test]
fn the_overlay_stands_on_the_lower_half() {
    let zoom = zoomed(ZoomMovement::Continuously, 2.0);
    let out = output(100, 100, 800, 600);
    assert_eq!(sides(zoom.overlay_rect(&out, Size::new(200, 48))), (300.0, 426.0, 200.0, 48.0));
    let at = zoom.render_location(&out, Size::new(200, 48), F(1.25));
    assert_eq!((at.x, at.y), (375, 533));
}

#[test]
fn the_overlay_is_widened_up_to_the_output() {
    let out = output(0, 0, 800, 600);
    let size = overlay_size(Size::new(300, 48), &out);
    assert_eq!((size.w, size.h), (332, 48));
    let size = overlay_size(Size::new(790, 48), &out);
    assert_eq!((size.w, size.h), (800, 48));
}

#[test]
fn the_overlay_is_hit_where_it_is_shown() {
    let mut zoom = zoomed(ZoomMovement::Continuously, 2.0);
    zoom.focal_point = local(400.0, 300.0);
    let out = output(0, 0, 800, 600);
    let size = Size::new(200, 48);
    // The overlay's corner (300, 426) shows the point (350, 363).
    assert!(zoom.surface_under(&out, size, global(349.0, 363.0), 0).is_none());
    assert!(zoom.surface_under(&out, size, global(450.0, 370.0), 0).is_none());
    let at = zoom.surface_under(&out, size, global(350.0, 363.0), 0).unwrap();
    assert_eq!(coords(at), (350.0, 363.0));
    let at = zoom.surface_under(&out, size, global(360.0, 370.0), 0).unwrap();
    assert_eq!(coords(at), (340.0, 356.0));
    // Twenty and fourteen into the overlay, as on the screen.
    let shown = zoom.global_pos_to_screen_space(global(360.0, 370.0), &out, 0);
    assert_eq!(coords(shown), (320.0, 440.0));
    let state = ZoomState::new("seat0");
    let again = state.surface_under(&zoom, &out, size, global(360.0, 370.0), 0).unwrap();
    assert_eq!(coords(again), (340.0, 356.0));
}

#[test]
fn a_seat_keeps_its_magnifier() {
    let zoom = zoomed(ZoomMovement::Continuously, 2.5);
    let state = ZoomState::new(String::from("seat0"));
    assert_eq!(state.seat(), "seat0");
    assert_eq!(state.current_seat(), "seat0");
    assert_eq!(state.target_level(&zoom), F(2.5));
    assert_eq!(state.seat_and_target_level(&zoom), (String::from("seat0"), F(2.5)));
}

#[test]
fn the_overlay_is_rendered_over_magnified_outputs() {
    let state = ZoomState::new(());
    let mut zoom = zoomed(ZoomMovement::Continuously, 1.01);
    assert!(state.should_render_overlay(&zoom));
    zoom.show_overlay = false;
    assert!(!state.should_render_overlay(&zoom));
    assert!(!state.should_render_overlay(&zoomed(ZoomMovement::Continuously, 1.0)));
}

#[test]
fn focal_point_and_level_are_shown_together() {
    let out = output(0, 0, 800, 600);
    let state = ZoomState::new(());
    let mut zoom = zoomed(ZoomMovement::Continuously, 3.0);
    zoom.previous_level = Some((F(1.0), 0));
    zoom.previous_point = Some((local(0.0, 0.0), 0));
    zoom.pointer_position = local(80.0, 60.0);
    let (point, level) = state.animating_focal_point_and_level(&mut zoom, &out, 50 * MS);
    assert_eq!(coords(point), (20.0, 15.0));
    assert_eq!(level, F(1.5));
    assert_eq!(coords(zoom.focal_point), (80.0, 60.0));
}

#[test]
fn menus_open_from_the_overlay() {
    let mut zoom = zoomed(ZoomMovement::Continuously, 8.0);
    zoom.focal_point = local(400.0, 300.0);
    let out = output(1000, 50, 800, 600);
    let size = Size::new(200, 49);
    let start = Some(global(1405.0, 350.0));
    let place = place_menu(Some((&zoom, size)), &out, start, Anchor::Beside, 0).unwrap();
    assert_eq!((place.position.x, place.position.y), (1440, 500));
    assert_eq!(place.alignment, Alignment::HorizontallyCentered { offset: 25 });
    assert_eq!(place.scale, F(4.0));
    let place = place_menu(Some((&zoom, size)), &out, start, Anchor::Over, 0).unwrap();
    assert_eq!((place.position.x, place.position.y), (1440, 500));
    assert_eq!(place.alignment, Alignment::PreferCentered);
    assert!(place_menu(Some((&zoom, size)), &out, None, Anchor::Over, 0).is_none());
    assert!(place_menu(None, &out, start, Anchor::Over, 0).is_none());
}

#[test]
fn steps_are_percentages() {
    assert_eq!(zoom_step::<F>(Direction::In, 25), F(0.25));
    assert_eq!(zoom_step::<F>(Direction::Out, 150), F(-1.5));
    let there = F(1.5).plus(zoom_step(Direction::In, 50));
    assert_eq!(there.plus(zoom_step(Direction::Out, 50)), F(1.5));
}

#[test]
fn controls_show_the_level_as_a_whole_percentage() {
    let program = ZoomProgram::new(F(1.256), ZoomMovement::OnEdge, 75);
    let controls = program.controls();
    assert_eq!(controls[1], Control::Percent(F(126.0)));
    assert_eq!(
        controls[4],
        Control::PercentButton {
            percent: 75,
            icon: Icon::PanDown,
            message: ZoomMessage::Increment,
        }
    );
}

#[test]
fn clamp_holds_a_value_between_its_bounds() {
    assert_eq!(clamp(F(-1.0), F(0.0), F(2.0)), F(0.0));
    assert_eq!(clamp(F(3.0), F(0.0), F(2.0)), F(2.0));
    assert_eq!(clamp(F(1.5), F(0.0), F(2.0)), F(1.5));
}

#[test]
fn the_margin_is_the_double_nearest_to_a_fiftieth() {
    assert_eq!(F::whole(2).over(F::whole(100)), F(0.02));
}

#[test]
fn a_level_can_be_changed_on_outputs_with_pixels() {
    let full = output(0, 0, 800, 600);
    let empty = output(0, 0, 0, 0);
    let at = local(10.0, 10.0);
    let zoom = zoomed(ZoomMovement::OnEdge, 1.0);
    assert!(zoom.can_update_level(&full, at, F(2.0), true, 0));
    assert!(!zoom.can_update_level(&empty, at, F(2.0), true, 0));
    assert!(zoom.can_update_level(&empty, at, F(1.0), true, 0));
    let zoom = zoomed(ZoomMovement::Centered, 2.0);
    assert!(zoom.can_update_level(&full, at, F(0.5), false, 0));
}

#[test]
fn what_is_shown_stays_within_the_output() {
    let out = output(0, 0, 1024, 512);
    let movements =
        [ZoomMovement::Continuously, ZoomMovement::OnEdge, ZoomMovement::Centered];
    for movement in movements {
        let mut zoom = zoomed(movement, 4.0);
        for x in [0.0, 1.0, 100.0, 512.0, 900.0, 1023.0] {
            for y in [0.0, 3.0, 256.0, 500.0, 511.0] {
                zoom.update_pointer_position(&out, local(x, y), 0);
                let (left, top, w, h) = sides(zoom.zoomed_geometry_global(&out, None, 0));
                assert_eq!((w, h), (256.0, 128.0));
                assert!(left >= 0.0 && left + w <= 1024.0);
                assert!(top >= 0.0 && top + h <= 512.0);
            }
        }
    }
}

#[test]
fn a_change_of_level_stays_within_the_output() {
    let out = output(0, 0, 1024, 512);
    let movements =
        [ZoomMovement::Continuously, ZoomMovement::OnEdge, ZoomMovement::Centered];
    for movement in movements {
        let mut zoom = zoomed(movement, 2.0);
        for level in [4.0, 8.0, 64.0, 2.0] {
            zoom.update_level(&out, local(1023.0, 1.0), F(level), false, 50, 0);
            let (left, top, w, h) = sides(zoom.zoomed_geometry_global(&out, None, 0));
            assert!(left >= 0.0 && left + w <= 1024.0);
            assert!(top >= 0.0 && top + h <= 512.0);
        }
    }
}

#[test]
fn an_animation_goes_one_way() {
    let mut zoom = zoomed(ZoomMovement::Continuously, 5.0);
    zoom.previous_level = Some((F(1.0), 10 * MS));
    let mut last = F(1.0);
    for step in 0..60 {
        let level = zoom.animating_level(step * 5 * MS);
        assert!(last.at_most(level) && level.at_most(F(5.0)));
        last = level;
    }
    assert_eq!(last, F(5.0));
}

#[test]
fn points_change_spaces_and_back() {
    let out = output(-300, 40, 800, 600);
    let p = out.to_global(local(12.5, 7.0));
    assert_eq!(coords(p), (-287.5, 47.0));
    assert_eq!(coords(out.to_local(p)), (12.5, 7.0));
    assert_eq!(sides(out.local_geometry::<F>()), (0.0, 0.0, 800.0, 600.0));
    assert_eq!(sides(out.geometry::<F>()), (-300.0, 40.0, 800.0, 600.0));
}

#[test]
fn a_level_that_is_no_number_stays_none() {
    let out = output(0, 0, 800, 600);
    let mut zoom = zoomed(ZoomMovement::Continuously, 2.0);
    zoom.update_level(&out, local(0.0, 0.0), F(f64::NAN), false, 50, 0);
    assert!(zoom.target_level().0.is_nan());
}

#[test]
fn centered_movement_stays_within_the_output_for_any_pointer() {
    let out = output(0, 0, 1024, 512);
    let mut zoom = zoomed(ZoomMovement::Centered, 4.0);
    zoom.focal_point = local(-5000.0, 9000.0);
    for (x, y) in [(-300.0, -1.0), (5000.0, 600.0), (2000.0, -50.0)] {
        zoom.update_pointer_position(&out, local(x, y), 0);
        let (left, top, w, h) = sides(zoom.zoomed_geometry_global(&out, None, 0));
        assert!(left >= 0.0 && left + w <= 1024.0);
        assert!(top >= 0.0 && top + h <= 512.0);
    }
}

#[test]
fn a_step_in_from_level_one_centers_at_once() {
    let out = output(0, 0, 800, 600);
    let mut zoom = zoomed(ZoomMovement::Centered, 1.0);
    assert!(zoom.can_update_level(&out, local(500.0, 250.0), F(2.0), false, 0));
    zoom.update_level(&out, local(500.0, 250.0), F(2.0), false, 50, 0);
    assert_eq!(coords(zoom.focal_point), (600.0, 200.0));
    assert_eq!(
        sides(zoom.zoomed_geometry_global(&out, None, 0)),
        (300.0, 100.0, 400.0, 300.0)
    );
}

#[test]
fn at_the_edge_a_step_in_brings_the_focus_onto_the_output() {
    let out = output(0, 0, 800, 600);
    let mut zoom = zoomed(ZoomMovement::OnEdge, 1.0);
    zoom.update_level(&out, local(900.0, -40.0), F(2.0), false, 50, 0);
    assert_eq!(coords(zoom.focal_point), (799.0, 0.0));
}

#[test]
fn a_higher_level_shows_a_part_of_a_lower_one() {
    let out = output(0, 0, 1024, 512);
    let mut zoom = zoomed(ZoomMovement::Continuously, 2.0);
    zoom.focal_point = local(768.0, 64.0);
    let (left, top, w, h) = sides(zoom.zoomed_geometry(&out, None));
    zoom.level = F(8.0);
    let (inner_left, inner_top, inner_w, inner_h) = sides(zoom.zoomed_geometry(&out, None));
    assert!(left <= inner_left && inner_left + inner_w <= left + w);
    assert!(top <= inner_top && inner_top + inner_h <= top + h);
}

#[test]
fn levels_above_the_highest_can_be_started_with() {
    let out = output(0, 0, 800, 600);
    for movement in [ZoomMovement::OnEdge, ZoomMovement::Centered] {
        let zoom = zoomed(movement, 150.0);
        assert!(zoom.can_update_focal_point(&out, 0));
        assert!(zoom.can_update_level(&out, local(1.0, 1.0), F(3.0), true, 0));
    }
}

#[test]
fn centered_movement_shows_the_pointer_in_the_middle_of_the_view() {
    let out = output(100, 50, 800, 600);
    for (position, middle) in [
        ((500.0, 250.0), (500.0, 250.0)),
        ((10.0, 590.0), (200.0, 450.0)),
        ((-40.0, 300.0), (200.0, 300.0)),
        ((799.0, 0.0), (600.0, 150.0)),
    ] {
        let mut zoom = zoomed(ZoomMovement::Centered, 2.0);
        zoom.update_pointer_position(&out, local(position.0, position.1), 0);
        let (x, y, w, h) = sides(zoom.zoomed_geometry_global(&out, None, 0));
        assert_eq!((w, h), (400.0, 300.0));
        assert_eq!((x + w / 2.0 - 100.0, y + h / 2.0 - 50.0), middle);
    }
}

#[test]
fn local_and_global_geometry_agree_without_an_animation() {
    let out = output(100, 50, 800, 600);
    let mut zoom = zoomed(ZoomMovement::Continuously, 4.0);
    zoom.update_pointer_position(&out, local(300.0, 200.0), 0);
    let (x, y, w, h) = sides(zoom.zoomed_geometry(&out, None));
    assert_eq!((x, y, w, h), (225.0, 150.0, 200.0, 150.0));
    let global = sides(zoom.zoomed_geometry_global(&out, None, 0));
    assert_eq!(global, (x + 100.0, y + 50.0, w, h));
}

#[test]
fn what_is_shown_fills_the_screen() {
    let out = output(100, 50, 800, 600);
    let mut zoom = zoomed(ZoomMovement::Continuously, 4.0);
    zoom.update_pointer_position(&out, local(300.0, 200.0), 0);
    let (x, y, w, h) = sides(zoom.zoomed_geometry_global(&out, None, 0));
    let shown = |x, y| coords(zoom.global_pos_to_screen_space(global(x, y), &out, 0));
    assert_eq!(shown(x, y), (0.0, 0.0));
    assert_eq!(shown(x + w, y + h), (800.0, 600.0));
    assert_eq!(shown(x + 3.0, y + 1.0), (12.0, 4.0));
}

fn bits(value: F) -> Double {
    Double::from_bits(value.0.to_bits())
}

/// Moves, zooms and animates by a fixed sequence, and lists the numbers that came out.
fn played<S: Scalar>(number: fn(f64) -> S) -> Vec<S> {
    let movements = [ZoomMovement::Continuously, ZoomMovement::OnEdge, ZoomMovement::Centered];
    let out = output(1920, -37, 1366, 768);
    let mut zoom = OutputZoomState::new(&config(ZoomMovement::OnEdge), number(1.0), DURATION);
    let mut list = Vec::new();
    let mut seed: u64 = 88172645463325252;
    let mut now: u64 = 0;
    for _ in 0..3000 {
        seed ^= seed << 13;
        seed ^= seed >> 7;
        seed ^= seed << 17;
        now += seed % 150 * MS;
        let x = (seed >> 8) % 1_600_000;
        let y = (seed >> 16) % 900_000;
        let position = Point::new(
            number(x as f64 / 1000.0 - 100.0),
            number(y as f64 / 1000.0 - 60.0),
        );
        let level = number(((seed >> 24) % 1300) as f64 / 100.0);
        let mut change = None;
        match seed % 5 {
            0 => {
                let animate = seed >> 40 & 1 == 0;
                if zoom.can_update_level(&out, position, level, animate, now) {
                    change = zoom.update_level(&out, position, level, animate, 50, now);
                }
            }
            1 => {
                let next = config(movements[(seed >> 32) as usize % 3]);
                let mut moved = zoom.clone();
                moved.movement = next.view_moves;
                if moved.can_update_focal_point(&out, now) {
                    zoom.update_config(&out, &next, now);
                }
            }
            _ => {
                let mut moved = zoom.clone();
                moved.pointer_position = position;
                if moved.can_update_focal_point(&out, now) {
                    zoom.update_pointer_position(&out, position, now);
                }
            }
        }
        if let Some(change) = change {
            list.extend(change.scale);
        }
        zoom.refresh(now);
        if zoom.can_update_focal_point(&out, now) {
            let shown = zoom.animating_focal_point(&out, now);
            list.extend([shown.x, shown.y]);
        }
        list.extend([zoom.level, zoom.focal_point.x, zoom.focal_point.y]);
        list.push(zoom.animating_level(now));
        let view = zoom.zoomed_geometry_global(&out, None, now);
        list.extend([view.loc.x, view.loc.y, view.size.w, view.size.h]);
        let here = zoom.zoomed_geometry(&out, None);
        list.extend([here.loc.x, here.loc.y, here.size.w, here.size.h]);
        let spot = Point::new(view.loc.x.add(position.x), view.loc.y.add(position.y));
        let seen = zoom.global_pos_to_screen_space(spot, &out, now);
        list.extend([seen.x, seen.y]);
        if let Some(at) = zoom.surface_under(&out, Size::new(300, 49), spot, now) {
            list.extend([at.x, at.y]);
        }
        list.extend(zoom.follow_animation(now));
    }
    list
}

#[test]
fn doubles_and_the_machine_magnify_alike() {
    let machine: Vec<Double> = played(F).into_iter().map(bits).collect();
    let ours = played(|value: f64| Double::from_bits(value.to_bits()));
    assert!(machine.len() > 40_000);
    assert_eq!(machine, ours);
}
