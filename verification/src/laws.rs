//! What holds of the magnifier's geometry.
//!
//! Laws that rest on nothing but an order hold of every scalar that is
//! [`ordered`](ordered). The others read the formulas that the contracts use over the
//! mathematical reals, and say nothing of scalars that round; where one is said of numbers in
//! double precision, it tells so.
use crate::double::{
    lemma_from_one, lemma_less_itself, lemma_shift_at_most_zero, lemma_whole_is_finite, Double,
};
use crate::geometry::{point, Global, Local, Output, Point, Rectangle, Size};
use crate::output_zoom::{
    allowed_level, calm_area, centering, farthest_shift, last, magnified, millis, overlay_area,
    overshoot, passed, OutputZoomState, MAX_ZOOM,
};
use crate::program::{step_of, Direction};
use crate::rounding::{lemma_length_bound, lemma_wide};
use crate::scalar::{clamped, Arith};
use vstd::arithmetic::power2::{lemma2_to64, lemma_pow2_adds};
use vstd::prelude::*;

verus! {

/// Whether comparisons of this kind of number do not contradict each other.
pub open spec fn ordered<A: Arith>() -> bool {
    &&& forall|a: A| !(#[trigger] a.below(a))
    &&& forall|a: A, b: A| #[trigger] a.at_most(b) ==> !b.below(a)
}

/// The reals and the doubles are ordered, and the lowest level is at most the highest in both.
pub proof fn law_ordered()
    ensures
        ordered::<real>(),
        ordered::<Double>(),
        real::whole(1).at_most(real::whole(MAX_ZOOM)),
        Double::whole(1).at_most(Double::whole(MAX_ZOOM)),
{
    lemma_wide();
    lemma2_to64();
    lemma_pow2_adds(20, 26);
    lemma_length_bound(1, 0);
    lemma_length_bound(1, 1);
    lemma_length_bound(100, 6);
    lemma_length_bound(100, 7);
    assert(Double::whole(1) == Double::Finite {
        negative: false,
        mantissa: 0x10_0000_0000_0000,
        exponent: -52i32,
    });
    assert(Double::whole(MAX_ZOOM) == Double::Finite {
        negative: false,
        mantissa: 0x19_0000_0000_0000,
        exponent: -46i32,
    });
}

/// What is held between two bounds lies between them, whatever the scalar.
pub proof fn law_clamped_in_bounds<A: Arith>(value: A, low: A, high: A)
    requires
        ordered::<A>(),
        low.at_most(high),
    ensures
        !clamped(value, low, high).below(low),
        !high.below(clamped(value, low, high)),
        !value.below(low) && !high.below(value) ==> clamped(value, low, high) == value,
{
}

/// No level is taken that is below one or above the highest, whatever the scalar and whatever
/// is asked for.
pub proof fn law_level_in_bounds<A: Arith>(
    zoom: OutputZoomState<A>,
    output: Output,
    position: Point<A, Local>,
    level: A,
    animate: bool,
    now: u64,
)
    requires
        ordered::<A>(),
        A::whole(1).at_most(A::whole(MAX_ZOOM)),
    ensures
        ({
            let next = zoom.leveled(output, position, level, animate, now);
            !next.level.below(A::whole(1)) && !A::whole(MAX_ZOOM).below(next.level)
        }),
{
    law_clamped_in_bounds(level, A::whole(1), A::whole(MAX_ZOOM));
}

/// Followed at the edge, the focal point stays where it is or lies on the output, whatever
/// the scalar.
pub proof fn law_edge_focus_on_output<A: Arith>(zoom: OutputZoomState<A>, output: Output, now: u64)
    requires
        ordered::<A>(),
        zoom.movement is OnEdge,
        zoom.focusable(output, now),
    ensures
        ({
            let area = output.local_area::<A>();
            let focus = zoom.focus_at(output, now);
            ||| focus == zoom.focal_point
            ||| {
                &&& !focus.x.below(area.loc.x)
                &&& !last(area.loc.x, area.size.w).below(focus.x)
                &&& !focus.y.below(area.loc.y)
                &&& !last(area.loc.y, area.size.h).below(focus.y)
            }
        }),
{
}

pub(crate) proof fn lemma_over_times(a: real, l: real)
    requires
        l != 0real,
    ensures
        (a / l) * l == a,
        (a * l) / l == a,
{
    assert((a / l) * l == a) by (nonlinear_arith)
        requires
            l != 0real,
    ;
    assert((a * l) / l == a) by (nonlinear_arith)
        requires
            l != 0real,
    ;
}

/// A point keeps its place from an output's space to the global one and back.
pub proof fn law_spaces_round_trip(
    output: Output,
    p: Point<real, Local>,
    pos: Point<real, Global>,
)
    ensures
        output.localized(output.globalized(p)) == p,
        output.globalized(output.localized(pos)) == pos,
        output.local_area::<real>().loc.x == 0real,
        output.local_area::<real>().loc.y == 0real,
{
}

/// A point of the screen shows the global point that is shown there: mapping to the global
/// space and to the screen undo each other.
pub proof fn law_screen_round_trip(
    zoom: OutputZoomState<real>,
    output: Output,
    p: Point<real, Local>,
    pos: Point<real, Global>,
    now: u64,
)
    requires
        zoom.level_at(now) != 0real,
    ensures
        zoom.on_screen(zoom.shown_at(p, output, now), output, now) == p,
        zoom.shown_at(zoom.on_screen(pos, output, now), output, now) == pos,
{
    let l = zoom.level_at(now);
    let view = zoom.global_view(output.global_area(), output, now);
    lemma_over_times(p.x, l);
    lemma_over_times(p.y, l);
    lemma_over_times(pos.x - view.loc.x, l);
    lemma_over_times(pos.y - view.loc.y, l);
}

/// What is shown fills the screen: the view's corners are shown at the screen's corners, and
/// every distance is shown magnified by the level.
pub proof fn law_view_fills_screen(
    zoom: OutputZoomState<real>,
    output: Output,
    a: Point<real, Global>,
    b: Point<real, Global>,
    now: u64,
)
    requires
        zoom.level_at(now) != 0real,
    ensures
        ({
            let view = zoom.global_view(output.global_area(), output, now);
            let area = output.local_area::<real>();
            let first = zoom.on_screen(view.loc, output, now);
            let far = zoom.on_screen(point(view.right(), view.bottom()), output, now);
            let shown_a = zoom.on_screen(a, output, now);
            let shown_b = zoom.on_screen(b, output, now);
            &&& first.x == 0real && first.y == 0real
            &&& far.x == area.size.w && far.y == area.size.h
            &&& shown_b.x - shown_a.x == (b.x - a.x) * zoom.level_at(now)
            &&& shown_b.y - shown_a.y == (b.y - a.y) * zoom.level_at(now)
        }),
{
    let l = zoom.level_at(now);
    let area = output.global_area::<real>();
    let view = zoom.global_view(area, output, now);
    lemma_over_times(area.size.w, l);
    lemma_over_times(area.size.h, l);
    assert((view.loc.x - view.loc.x) * l == 0real) by (nonlinear_arith);
    assert((view.loc.y - view.loc.y) * l == 0real) by (nonlinear_arith);
    assert(view.right() - view.loc.x == area.size.w / l);
    assert(view.bottom() - view.loc.y == area.size.h / l);
    assert((b.x - view.loc.x) * l - (a.x - view.loc.x) * l == (b.x - a.x) * l)
        by (nonlinear_arith);
    assert((b.y - view.loc.y) * l - (a.y - view.loc.y) * l == (b.y - a.y) * l)
        by (nonlinear_arith);
}

/// What is shown is the same in the output's space and in the global one, moved by the
/// output's corner, wherever no animation keeps the level shown from the one it leads to.
pub proof fn law_views_agree(zoom: OutputZoomState<real>, output: Output, now: u64)
    requires
        zoom.level_at(now) == zoom.level,
    ensures
        ({
            let view = zoom.global_view(output.global_area(), output, now);
            let here = magnified(output.local_area::<real>(), zoom.focal_point, zoom.level);
            let corner = output.corner::<real>();
            &&& view.loc.x == here.loc.x + corner.x
            &&& view.loc.y == here.loc.y + corner.y
            &&& view.size.w == here.size.w
            &&& view.size.h == here.size.h
        }),
{
    let f = zoom.focal_point;
    let corner = output.corner::<real>();
    assert(corner.x - (f.x + corner.x) == 0real - f.x);
    assert(corner.y - (f.y + corner.y) == 0real - f.y);
}

/// Magnification leaves the focal point in place.
pub proof fn law_focal_point_stays(zoom: OutputZoomState<real>, output: Output, now: u64)
    requires
        zoom.level_at(now) != 0real,
    ensures
        zoom.on_screen(output.globalized(zoom.focal_point), output, now) == zoom.focal_point,
{
    let l = zoom.level_at(now);
    let f = output.globalized(zoom.focal_point);
    let c = output.corner::<real>();
    lemma_over_times(c.x - f.x, l);
    lemma_over_times(c.y - f.y, l);
    assert((f.x - ((c.x - f.x) / l + f.x)) * l == 0real - ((c.x - f.x) / l) * l)
        by (nonlinear_arith);
    assert((f.y - ((c.y - f.y) / l + f.y)) * l == 0real - ((c.y - f.y) / l) * l)
        by (nonlinear_arith);
}

/// The pointer hits the overlay where it is shown: measured from the reported location, the
/// pointer is as far into the overlay as it is on the screen, once no animation of the level
/// runs.
pub proof fn law_overlay_is_hit_where_shown(
    zoom: OutputZoomState<real>,
    output: Output,
    overlay: Rectangle<real, Local>,
    pos: Point<real, Global>,
    now: u64,
)
    requires
        zoom.level_at(now) == zoom.level,
        zoom.level != 0real,
    ensures
        ({
            let hit = pos.minus(zoom.overlay_origin(overlay, output, pos, now));
            let shown = zoom.on_screen(pos, output, now).minus(overlay.loc);
            hit.x == shown.x && hit.y == shown.y
        }),
{
    let l = zoom.level;
    let view = zoom.global_view(output.global_area(), output, now);
    lemma_over_times(overlay.loc.x, l);
    lemma_over_times(overlay.loc.y, l);
    let gx = overlay.loc.x / l;
    let gy = overlay.loc.y / l;
    assert(pos.x - (gx + view.loc.x - (pos.x - (gx + view.loc.x)) * (l - 1real)) == (pos.x
        - view.loc.x) * l - gx * l) by (nonlinear_arith);
    assert(pos.y - (gy + view.loc.y - (pos.y - (gy + view.loc.y)) * (l - 1real)) == (pos.y
        - view.loc.y) * l - gy * l) by (nonlinear_arith);
}

/// Whether the point lies in the area, its edges included.
pub open spec fn reaches<K>(area: Rectangle<real, K>, p: Point<real, K>) -> bool {
    &&& area.loc.x <= p.x <= area.loc.x + area.size.w
    &&& area.loc.y <= p.y <= area.loc.y + area.size.h
}

/// Whether one area lies within another.
pub open spec fn covers<K>(outer: Rectangle<real, K>, inner: Rectangle<real, K>) -> bool {
    &&& outer.loc.x <= inner.loc.x
    &&& inner.loc.x + inner.size.w <= outer.loc.x + outer.size.w
    &&& outer.loc.y <= inner.loc.y
    &&& inner.loc.y + inner.size.h <= outer.loc.y + outer.size.h
}

/// Whether a level lies between no magnification and the highest.
pub open spec fn in_range(level: real) -> bool {
    1real <= level <= 100real
}

/// Whether no level of the state is below one.
pub open spec fn levels_from_one(zoom: OutputZoomState<real>) -> bool {
    &&& 1real <= zoom.level
    &&& zoom.previous_level matches Some((old_level, _)) ==> 1real <= old_level
}

/// Whether all levels of the state are in range.
pub open spec fn levels_in_range(zoom: OutputZoomState<real>) -> bool {
    &&& in_range(zoom.level)
    &&& zoom.previous_level matches Some((old_level, _)) ==> in_range(old_level)
}

/// Whether the output is at least a pixel wide and high.
pub open spec fn has_pixels(output: Output) -> bool {
    output.size.w >= 1 && output.size.h >= 1
}

proof fn lemma_magnified_axis(low: real, size: real, focus: real, level: real)
    requires
        1real <= level,
        low <= focus <= low + size,
    ensures
        low <= (low - focus) / level + focus,
        (low - focus) / level + focus + size / level <= low + size,
{
    assert(low <= (low - focus) / level + focus) by (nonlinear_arith)
        requires
            1real <= level,
            low <= focus,
    ;
    assert((low - focus) / level + focus + size / level <= low + size) by (nonlinear_arith)
        requires
            1real <= level,
            focus <= low + size,
    ;
}

/// What is magnified around a point of an area lies within the area, and its sides are the
/// area's divided by the level.
pub proof fn law_magnified_within_area<K>(
    area: Rectangle<real, K>,
    focus: Point<real, K>,
    level: real,
)
    requires
        1real <= level,
        reaches(area, focus),
    ensures
        covers(area, magnified(area, focus, level)),
        magnified(area, focus, level).size.w * level == area.size.w,
        magnified(area, focus, level).size.h * level == area.size.h,
{
    lemma_magnified_axis(area.loc.x, area.size.w, focus.x, level);
    lemma_magnified_axis(area.loc.y, area.size.h, focus.y, level);
    lemma_over_times(area.size.w, level);
    lemma_over_times(area.size.h, level);
}

proof fn lemma_closer_axis(low: real, size: real, focus: real, level: real, higher: real)
    requires
        0real < level <= higher,
        low <= focus <= low + size,
    ensures
        (low - focus) / level + focus <= (low - focus) / higher + focus,
        (low - focus) / higher + focus + size / higher <= (low - focus) / level + focus + size
            / level,
{
    let before = focus - low;
    let behind = low + size - focus;
    assert(before / higher <= before / level) by (nonlinear_arith)
        requires
            0real < level <= higher,
            0real <= before,
    ;
    assert(behind / higher <= behind / level) by (nonlinear_arith)
        requires
            0real < level <= higher,
            0real <= behind,
    ;
    assert((low - focus) / level == 0real - before / level) by (nonlinear_arith)
        requires
            before == focus - low,
            0real < level,
    ;
    assert((low - focus) / higher == 0real - before / higher) by (nonlinear_arith)
        requires
            before == focus - low,
            0real < higher,
    ;
    assert((low - focus) / level + size / level == behind / level) by (nonlinear_arith)
        requires
            behind == low + size - focus,
            0real < level,
    ;
    assert((low - focus) / higher + size / higher == behind / higher) by (nonlinear_arith)
        requires
            behind == low + size - focus,
            0real < higher,
    ;
}

/// Of two levels, the higher one shows a part of what the lower one shows.
pub proof fn law_higher_level_shows_less<K>(
    area: Rectangle<real, K>,
    focus: Point<real, K>,
    level: real,
    higher: real,
)
    requires
        0real < level <= higher,
        reaches(area, focus),
    ensures
        covers(magnified(area, focus, level), magnified(area, focus, higher)),
{
    lemma_closer_axis(area.loc.x, area.size.w, focus.x, level, higher);
    lemma_closer_axis(area.loc.y, area.size.h, focus.y, level, higher);
}

/// At level one everything is shown, wherever the focal point is.
pub proof fn law_level_one_shows_everything<K>(area: Rectangle<real, K>, focus: Point<real, K>)
    ensures
        magnified(area, focus, 1real) == area,
{
    assert((area.loc.x - focus.x) / 1real == area.loc.x - focus.x) by (nonlinear_arith);
    assert((area.loc.y - focus.y) / 1real == area.loc.y - focus.y) by (nonlinear_arith);
    assert(area.size.w / 1real == area.size.w) by (nonlinear_arith);
    assert(area.size.h / 1real == area.size.h) by (nonlinear_arith);
}

/// An output at rest shows all of itself.
pub proof fn law_rest_shows_everything(zoom: OutputZoomState<real>, output: Output, now: u64)
    requires
        zoom.at_rest(),
    ensures
        zoom.global_view(output.global_area(), output, now) == output.global_area::<real>(),
{
    law_level_one_shows_everything(
        output.global_area::<real>(),
        output.globalized(zoom.focal_point),
    );
}

/// The level that is taken is in range, and is the one asked for if that is.
pub proof fn law_allowed_level(level: real)
    ensures
        in_range(allowed_level(level)),
        in_range(level) ==> allowed_level(level) == level,
        allowed_level(allowed_level(level)) == allowed_level(level),
{
}

proof fn lemma_eased(from: real, to: real, elapsed: u64, duration: u64)
    ensures
        from <= to ==> from <= real::eased(from, to, elapsed, duration) <= to,
        to <= from ==> to <= real::eased(from, to, elapsed, duration) <= from,
        elapsed == 0 && duration > 0 ==> real::eased(from, to, elapsed, duration) == from,
        elapsed >= duration ==> real::eased(from, to, elapsed, duration) == to,
{
    if elapsed < duration {
        let e = elapsed as int as real;
        let d = duration as int as real;
        let part = e / d;
        assert(0real <= part <= 1real) by (nonlinear_arith)
            requires
                0real <= e < d,
                part == e / d,
        ;
        assert(from <= to ==> from <= from + (to - from) * part <= to) by (nonlinear_arith)
            requires
                0real <= part <= 1real,
        ;
        assert(to <= from ==> to <= from + (to - from) * part <= from) by (nonlinear_arith)
            requires
                0real <= part <= 1real,
        ;
        if elapsed == 0 {
            assert(0real / d == 0real) by (nonlinear_arith)
                requires
                    d > 0real,
            ;
            assert((to - from) * 0real == 0real) by (nonlinear_arith);
        }
    }
}

/// An animation of the level leads from the old level to the new one: it starts at the one,
/// ends at the other, and shows only levels between them.
pub proof fn law_level_animation(zoom: OutputZoomState<real>, old_level: real, start: u64, now: u64)
    requires
        zoom.previous_level == Some((old_level, start)),
    ensures
        old_level <= zoom.level ==> old_level <= zoom.level_at(now) <= zoom.level,
        zoom.level <= old_level ==> zoom.level <= zoom.level_at(now) <= old_level,
        now <= start && zoom.animation_duration >= 1_000_000 ==> zoom.level_at(now) == old_level,
        passed(start, now) >= zoom.animation_duration ==> zoom.level_at(now) == zoom.level,
{
    lemma_eased(
        old_level,
        zoom.level,
        millis(passed(start, now)),
        millis(zoom.animation_duration),
    );
}

proof fn lemma_eased_on(from: real, to: real, elapsed: u64, later: u64, duration: u64)
    requires
        elapsed <= later,
    ensures
        from <= to ==> real::eased(from, to, elapsed, duration) <= real::eased(
            from,
            to,
            later,
            duration,
        ),
        to <= from ==> real::eased(from, to, later, duration) <= real::eased(
            from,
            to,
            elapsed,
            duration,
        ),
{
    lemma_eased(from, to, elapsed, duration);
    if later < duration {
        let a = elapsed as int as real / (duration as int as real);
        let b = later as int as real / (duration as int as real);
        let d = duration as int as real;
        assert(a <= b) by (nonlinear_arith)
            requires
                elapsed as int as real <= later as int as real,
                d > 0real,
                d == duration as int as real,
                a == elapsed as int as real / d,
                b == later as int as real / d,
        ;
        assert(from <= to ==> (to - from) * a <= (to - from) * b) by (nonlinear_arith)
            requires
                a <= b,
        ;
        assert(to <= from ==> (to - from) * b <= (to - from) * a) by (nonlinear_arith)
            requires
                a <= b,
        ;
    }
}

/// An animation of the level never turns back.
pub proof fn law_level_animation_goes_one_way(
    zoom: OutputZoomState<real>,
    old_level: real,
    start: u64,
    now: u64,
    later: u64,
)
    requires
        zoom.previous_level == Some((old_level, start)),
        now <= later,
    ensures
        old_level <= zoom.level ==> zoom.level_at(now) <= zoom.level_at(later),
        zoom.level <= old_level ==> zoom.level_at(later) <= zoom.level_at(now),
{
    lemma_eased_on(
        old_level,
        zoom.level,
        millis(passed(start, now)),
        millis(passed(start, later)),
        millis(zoom.animation_duration),
    );
}

/// Levels in range show levels in range.
pub proof fn law_shown_level_in_range(zoom: OutputZoomState<real>, now: u64)
    requires
        levels_in_range(zoom),
    ensures
        in_range(zoom.level_at(now)),
{
    if let Some((old_level, start)) = zoom.previous_level {
        law_level_animation(zoom, old_level, start, now);
    }
}

/// Levels from one on show levels from one on.
pub proof fn law_shown_level_from_one(zoom: OutputZoomState<real>, now: u64)
    requires
        levels_from_one(zoom),
    ensures
        1real <= zoom.level_at(now),
{
    if let Some((old_level, start)) = zoom.previous_level {
        law_level_animation(zoom, old_level, start, now);
    }
}

/// No operation takes a level below one, whatever level is asked for.
pub proof fn law_levels_stay_from_one(
    zoom: OutputZoomState<real>,
    output: Output,
    position: Point<real, Local>,
    level: real,
    animate: bool,
    now: u64,
)
    requires
        levels_from_one(zoom),
    ensures
        levels_from_one(zoom.refocused(output, now)),
        levels_from_one(zoom.advanced(output, now)),
        levels_from_one(zoom.settled(now)),
        levels_from_one(zoom.leveled(output, position, level, animate, now)),
{
    law_allowed_level(level);
    law_shown_level_from_one(zoom.pointed(output, position, now), now);
}

/// No operation takes a level out of range, whatever level is asked for.
pub proof fn law_levels_stay_in_range(
    zoom: OutputZoomState<real>,
    output: Output,
    position: Point<real, Local>,
    level: real,
    animate: bool,
    now: u64,
)
    requires
        levels_in_range(zoom),
    ensures
        levels_in_range(zoom.refocused(output, now)),
        levels_in_range(zoom.advanced(output, now)),
        levels_in_range(zoom.settled(now)),
        levels_in_range(zoom.leveled(output, position, level, animate, now)),
{
    law_allowed_level(level);
    law_shown_level_in_range(zoom.pointed(output, position, now), now);
}

proof fn lemma_farthest_shift(size: real, level: real)
    requires
        size >= 0real,
        level >= 1real,
    ensures
        farthest_shift(size, level) <= 0real,
{
    assert(size * (1real - level) <= 0real) by (nonlinear_arith)
        requires
            size >= 0real,
            level >= 1real,
    ;
}

/// With levels from one on and an output that has pixels, the focal point can always be set.
pub proof fn law_focusable(zoom: OutputZoomState<real>, output: Output, now: u64)
    requires
        levels_from_one(zoom),
        has_pixels(output),
    ensures
        zoom.focusable(output, now),
{
    law_shown_level_from_one(zoom, now);
    lemma_farthest_shift(output.size.w as int as real, zoom.level_at(now));
    lemma_farthest_shift(output.size.h as int as real, zoom.level_at(now));
}

/// In double precision too, the focal point can be set wherever a level from one on is shown
/// on an output that has pixels, whatever the other numbers of the state are.
pub proof fn law_focusable_in_double_precision(
    zoom: OutputZoomState<Double>,
    output: Output,
    now: u64,
)
    requires
        Double::whole(1).at_most(zoom.level_at(now)),
        has_pixels(output),
    ensures
        zoom.focusable(output, now),
{
    let corner = output.corner::<Double>();
    lemma_whole_is_finite(output.loc.x as i64);
    lemma_whole_is_finite(output.loc.y as i64);
    lemma_less_itself(corner.x);
    lemma_less_itself(corner.y);
    lemma_from_one(output.size.w as i64);
    lemma_from_one(output.size.h as i64);
    lemma_shift_at_most_zero(Double::whole(output.size.w as i64), zoom.level_at(now));
    lemma_shift_at_most_zero(Double::whole(output.size.h as i64), zoom.level_at(now));
}

/// With levels from one on and an output that has pixels, every level can be asked for.
pub proof fn law_levelable(
    zoom: OutputZoomState<real>,
    output: Output,
    position: Point<real, Local>,
    level: real,
    animate: bool,
    now: u64,
)
    requires
        levels_from_one(zoom),
        has_pixels(output),
    ensures
        zoom.levelable(output, position, level, animate, now),
{
    law_focusable(zoom.aimed(position), output, now);
    law_levels_stay_from_one(zoom, output, position, level, animate, now);
    law_focusable(zoom.leveled(output, position, level, animate, now), output, now);
}

/// Magnified continuously, the pointer is shown where it is.
pub proof fn law_continuous_pointer_stays(zoom: OutputZoomState<real>, output: Output, now: u64)
    requires
        zoom.movement is Continuously,
        zoom.level_at(now) != 0real,
    ensures
        zoom.refocused(output, now).on_screen(
            output.globalized(zoom.pointer_position),
            output,
            now,
        ) == zoom.pointer_position,
{
    law_focal_point_stays(zoom.refocused(output, now), output, now);
}

/// The coordinate on a screen that starts at zero where `coordinate` is shown.
spec fn shown_coordinate(coordinate: real, focus: real, level: real) -> real {
    (coordinate - ((0real - focus) / level + focus)) * level
}

proof fn lemma_shown_coordinate(coordinate: real, corner: real, focus: real, level: real)
    requires
        level != 0real,
    ensures
        (coordinate + corner - ((corner - (focus + corner)) / level + (focus + corner))) * level
            == shown_coordinate(coordinate, focus, level),
        shown_coordinate(coordinate, focus, level) == coordinate * level + focus * (1real - level),
{
    assert(corner - (focus + corner) == 0real - focus);
    lemma_over_times(0real - focus, level);
    let q = (0real - focus) / level;
    assert((coordinate - (q + focus)) * level == coordinate * level - q * level - focus * level)
        by (nonlinear_arith);
    assert(focus * (1real - level) == focus - focus * level) by (nonlinear_arith);
}

/// The focal point that keeps the pointer in the middle lies on the output, and magnification
/// around it shifts the picture by as much as is called for: the level's excess over one
/// times the focal coordinate.
pub proof fn law_centering(coordinate: real, size: real, level: real)
    requires
        size >= 0real,
        level > 1real,
    ensures
        0real <= centering(coordinate, size, level) <= size,
        centering(coordinate, size, level) * (1real - level) == clamped(
            size / 2real - coordinate * level,
            farthest_shift(size, level),
            0real,
        ),
{
    let rest = 1real - level;
    let t = clamped(size / 2real - coordinate * level, farthest_shift(size, level), 0real);
    lemma_farthest_shift(size, level);
    lemma_over_times(t, rest);
    assert(0real <= t / rest <= size) by (nonlinear_arith)
        requires
            rest < 0real,
            size * rest <= t <= 0real,
    ;
}

/// Kept in the middle, the pointer is shown in the middle of the screen wherever it is at
/// least half of what is shown away from the edges of the output, and from anywhere on the
/// output it is shown on the screen.
pub proof fn law_centered_pointer(zoom: OutputZoomState<real>, output: Output, now: u64)
    requires
        zoom.movement is Centered,
        zoom.level_at(now) > 1real,
        zoom.focusable(output, now),
    ensures
        ({
            let level = zoom.level_at(now);
            let area = output.local_area::<real>();
            let p = zoom.pointer_position;
            let shown = zoom.refocused(output, now).on_screen(output.globalized(p), output, now);
            &&& area.size.w <= 2real * (p.x * level) && area.size.w <= 2real * ((area.size.w - p.x)
                * level) ==> 2real * shown.x == area.size.w
            &&& area.size.h <= 2real * (p.y * level) && area.size.h <= 2real * ((area.size.h - p.y)
                * level) ==> 2real * shown.y == area.size.h
            &&& reaches(area, p) ==> reaches(area, shown)
        }),
{
    let area = output.local_area::<real>();
    let level = zoom.level_at(now);
    let p = zoom.pointer_position;
    let c = output.corner::<real>();
    let f = zoom.focus_at(output, now);
    lemma_size_of_shift(area.size.w, level);
    lemma_size_of_shift(area.size.h, level);
    law_centering(p.x, area.size.w, level);
    law_centering(p.y, area.size.h, level);
    lemma_shown_coordinate(p.x, c.x, f.x, level);
    lemma_shown_coordinate(p.y, c.y, f.y, level);
    lemma_products(p.x, area.size.w, level);
    lemma_products(p.y, area.size.h, level);
    lemma_over_times(area.size.w, 2real);
    lemma_over_times(area.size.h, 2real);
    let shown = zoom.refocused(output, now).on_screen(output.globalized(p), output, now);
    assert(shown.x == shown_coordinate(p.x, f.x, level));
    assert(shown.y == shown_coordinate(p.y, f.y, level));
}

/// The middle of what is shown on a screen that starts at zero.
spec fn middle_shown(size: real, focus: real, level: real) -> real {
    (0real - focus) / level + focus + size / level / 2real
}

proof fn lemma_middle_shown(coordinate: real, size: real, level: real)
    requires
        size >= 0real,
        level > 1real,
    ensures
        middle_shown(size, centering(coordinate, size, level), level) == clamped(
            coordinate,
            size / level / 2real,
            size - size / level / 2real,
        ),
{
    let focus = centering(coordinate, size, level);
    let half = size / level / 2real;
    let middle = middle_shown(size, focus, level);
    let held = clamped(coordinate, half, size - half);
    law_centering(coordinate, size, level);
    lemma_farthest_shift(size, level);
    lemma_products(coordinate, size, level);
    lemma_over_times(0real - focus, level);
    lemma_over_times(size, level);
    lemma_over_times(size / level, 2real);
    lemma_over_times(size, 2real);
    let q = (0real - focus) / level;
    assert(half * level == size / 2real) by (nonlinear_arith)
        requires
            half * 2real == size / level,
            (size / level) * level == size,
            (size / 2real) * 2real == size,
    ;
    assert(middle * level == q * level + focus * level + half * level) by (nonlinear_arith)
        requires
            middle == q + focus + half,
    ;
    assert(focus * (1real - level) == focus - focus * level) by (nonlinear_arith);
    assert((size - half) * level == size * level - half * level) by (nonlinear_arith);
    assert((coordinate < half ==> coordinate * level < half * level) && (coordinate >= half
        ==> coordinate * level >= half * level)) by (nonlinear_arith)
        requires
            level > 1real,
    ;
    assert((coordinate > size - half ==> coordinate * level > (size - half) * level) && (coordinate
        <= size - half ==> coordinate * level <= (size - half) * level)) by (nonlinear_arith)
        requires
            level > 1real,
    ;
    assert(middle * level == held * level);
    lemma_over_times(middle, level);
    lemma_over_times(held, level);
}

/// Kept in the middle, the pointer is the middle of what is shown, held half of what is shown
/// away from the edges of the output.
pub proof fn law_centered_view(zoom: OutputZoomState<real>, output: Output, now: u64)
    requires
        zoom.movement is Centered,
        zoom.level_at(now) > 1real,
        zoom.focusable(output, now),
    ensures
        ({
            let area = output.local_area::<real>();
            let corner = output.corner::<real>();
            let p = zoom.pointer_position;
            let view = zoom.refocused(output, now).global_view(output.global_area(), output, now);
            let half_w = view.size.w / 2real;
            let half_h = view.size.h / 2real;
            &&& view.size.w * zoom.level_at(now) == area.size.w
            &&& view.size.h * zoom.level_at(now) == area.size.h
            &&& view.loc.x + half_w - corner.x == clamped(p.x, half_w, area.size.w - half_w)
            &&& view.loc.y + half_h - corner.y == clamped(p.y, half_h, area.size.h - half_h)
        }),
{
    let area = output.local_area::<real>();
    let corner = output.corner::<real>();
    let level = zoom.level_at(now);
    let p = zoom.pointer_position;
    let f = zoom.focus_at(output, now);
    lemma_size_of_shift(area.size.w, level);
    lemma_size_of_shift(area.size.h, level);
    lemma_middle_shown(p.x, area.size.w, level);
    lemma_middle_shown(p.y, area.size.h, level);
    lemma_over_times(area.size.w, level);
    lemma_over_times(area.size.h, level);
    assert(corner.x - (f.x + corner.x) == 0real - f.x);
    assert(corner.y - (f.y + corner.y) == 0real - f.y);
}

proof fn lemma_products(p: real, size: real, level: real)
    requires
        level > 1real,
    ensures
        (size - p) * level == size * level - p * level,
        size * (1real - level) == size - size * level,
        p >= 0real ==> p * level >= 0real,
        p <= size ==> p * level <= size * level,
{
    assert((size - p) * level == size * level - p * level) by (nonlinear_arith);
    assert(size * (1real - level) == size - size * level) by (nonlinear_arith);
    assert(p >= 0real ==> p * level >= 0real) by (nonlinear_arith)
        requires
            level > 1real,
    ;
    assert(p <= size ==> p * level <= size * level) by (nonlinear_arith)
        requires
            level > 1real,
    ;
}

/// Whether the focal point is followed at the edge and the pointer does not call for it to
/// move.
pub open spec fn stays_put(zoom: OutputZoomState<real>, output: Output) -> bool {
    zoom.movement is OnEdge && calm_area(
        magnified(output.local_area(), zoom.focal_point, zoom.level),
    ).holds(zoom.pointer_position)
}

/// The focal point that is called for lies on the output. Continuously, this takes a pointer
/// on the output; at the edge, a focal point that is on the output if it stays; in the middle,
/// for any pointer, a level above one.
pub proof fn law_focus_on_output(zoom: OutputZoomState<real>, output: Output, now: u64)
    requires
        zoom.focusable(output, now),
        zoom.movement is Continuously ==> reaches(
            output.local_area::<real>(),
            zoom.pointer_position,
        ),
        stays_put(zoom, output) ==> reaches(output.local_area::<real>(), zoom.focal_point),
        zoom.movement is Centered ==> zoom.level_at(now) > 1real,
    ensures
        reaches(output.local_area::<real>(), zoom.focus_at(output, now)),
{
    let area = output.local_area::<real>();
    if zoom.movement is Centered {
        let level = zoom.level_at(now);
        lemma_size_of_shift(area.size.w, level);
        lemma_size_of_shift(area.size.h, level);
        law_centering(zoom.pointer_position.x, area.size.w, level);
        law_centering(zoom.pointer_position.y, area.size.h, level);
    }
}

proof fn lemma_size_of_shift(size: real, level: real)
    requires
        level > 1real,
        farthest_shift(size, level) <= 0real,
    ensures
        size >= 0real,
{
    assert(size >= 0real) by (nonlinear_arith)
        requires
            level > 1real,
            size * (1real - level) <= 0real,
    ;
}

/// However the magnified area follows the pointer, what is shown at levels from one on stays
/// within the output. Continuously, this takes a pointer on the output; at the edge, a focal
/// point that is on the output if it stays; in the middle, for any pointer, a shown level
/// above one, as at one there is no focal point that would move anything.
pub proof fn law_view_within_output(zoom: OutputZoomState<real>, output: Output, now: u64)
    requires
        zoom.focusable(output, now),
        1real <= zoom.level,
        1real <= zoom.level_at(now),
        zoom.movement is Continuously ==> reaches(
            output.local_area::<real>(),
            zoom.pointer_position,
        ),
        stays_put(zoom, output) ==> reaches(output.local_area::<real>(), zoom.focal_point),
        zoom.movement is Centered ==> zoom.level_at(now) > 1real,
    ensures
        ({
            let moved = zoom.refocused(output, now);
            &&& reaches(output.local_area::<real>(), moved.focal_point)
            &&& covers(
                output.global_area::<real>(),
                moved.global_view(output.global_area(), output, now),
            )
            &&& covers(
                output.local_area::<real>(),
                magnified(output.local_area(), moved.focal_point, moved.level),
            )
        }),
{
    let moved = zoom.refocused(output, now);
    law_focus_on_output(zoom, output, now);
    law_magnified_within_area(output.local_area::<real>(), moved.focal_point, moved.level);
    law_magnified_within_area(
        output.global_area::<real>(),
        output.globalized(moved.focal_point),
        moved.level_at(now),
    );
}

proof fn lemma_calm_within_axis(low: real, size: real, margin: real, coordinate: real)
    requires
        0real <= margin,
        low + margin <= coordinate < low + margin + (size - (margin + margin)),
    ensures
        low <= coordinate <= low + size,
{
}

/// The pointer is on the output wherever it is calm at level one.
proof fn lemma_calm_at_rest(zoom: OutputZoomState<real>, output: Output)
    requires
        zoom.at_rest_level(),
        stays_put(zoom, output),
    ensures
        reaches(output.local_area::<real>(), zoom.pointer_position),
{
    let area = output.local_area::<real>();
    law_level_one_shows_everything(area, zoom.focal_point);
    let part = real::whole(2) / real::whole(100);
    let margin = area.size.h * part;
    assert(0real < part && part + part <= 1real) by (nonlinear_arith)
        requires
            part == 2real / 100real,
    ;
    assert(area.size.h >= 0real && margin >= 0real) by {
        if area.size.h < 0real {
            assert(area.size.h * part + area.size.h * part >= area.size.h) by (nonlinear_arith)
                requires
                    part + part <= 1real,
                    area.size.h < 0real,
            ;
        }
        assert(area.size.h >= 0real ==> area.size.h * part >= 0real) by (nonlinear_arith)
            requires
                0real < part,
        ;
    }
    lemma_calm_within_axis(area.loc.x, area.size.w, margin, zoom.pointer_position.x);
    lemma_calm_within_axis(area.loc.y, area.size.h, margin, zoom.pointer_position.y);
}

/// A change of level leaves what is shown within the output, as long as levels from one on
/// are shown. Continuously, this takes a pointer on the output; at the edge, a focal point that
/// is on the output if it stays, unless nothing was magnified; in the middle, for any pointer
/// and from any level, a shown level above one after the change.
pub proof fn law_level_change_within_output(
    zoom: OutputZoomState<real>,
    output: Output,
    position: Point<real, Local>,
    level: real,
    animate: bool,
    now: u64,
)
    requires
        level != zoom.level,
        zoom.levelable(output, position, level, animate, now),
        1real <= zoom.leveled(output, position, level, animate, now).level_at(now),
        zoom.movement is Continuously ==> reaches(output.local_area::<real>(), position),
        !zoom.at_rest_level() && stays_put(
            zoom.leveled(output, position, level, animate, now),
            output,
        ) ==> reaches(output.local_area::<real>(), zoom.focal_point),
        zoom.movement is Centered ==> zoom.leveled(
            output,
            position,
            level,
            animate,
            now,
        ).level_at(now) > 1real,
    ensures
        ({
            let next = zoom.leveled(output, position, level, animate, now).refocused(output, now);
            &&& reaches(output.local_area::<real>(), next.focal_point)
            &&& covers(
                output.global_area::<real>(),
                next.global_view(output.global_area(), output, now),
            )
            &&& covers(
                output.local_area::<real>(),
                magnified(output.local_area(), next.focal_point, next.level),
            )
        }),
{
    if zoom.at_rest_level() && zoom.movement is OnEdge {
        if stays_put(zoom.aimed(position), output) {
            lemma_calm_at_rest(zoom.aimed(position), output);
        }
        law_focus_on_output(zoom.aimed(position), output, now);
    }
    law_allowed_level(level);
    law_view_within_output(zoom.leveled(output, position, level, animate, now), output, now);
}

proof fn lemma_calm_moves(low: real, focus: real, step: real, level: real)
    requires
        level != 0real,
    ensures
        (low - (focus + step)) / level + (focus + step) == (low - focus) / level + focus + step
            - step / level,
{
    assert((low - (focus + step)) / level == (low - focus) / level - step / level)
        by (nonlinear_arith)
        requires
            level != 0real,
    ;
}

/// Followed at the edge, a pointer that left the calm part of the magnified area is caught up
/// with: unless the output ends, it is then outside by the level's fraction of what it was.
pub proof fn law_edge_catches_up(zoom: OutputZoomState<real>, output: Output, now: u64)
    requires
        zoom.movement is OnEdge,
        1real <= zoom.level,
    ensures
        ({
            let area = output.local_area::<real>();
            let p = zoom.pointer_position;
            let moved = zoom.refocused(output, now);
            let before = calm_area(magnified(area, zoom.focal_point, zoom.level));
            let after = calm_area(magnified(area, moved.focal_point, zoom.level));
            let dx = overshoot(p.x, before.loc.x, before.right());
            let dy = overshoot(p.y, before.loc.y, before.bottom());
            &&& before.holds(p) ==> moved == zoom
            &&& !before.holds(p) && area.loc.x <= zoom.focal_point.x + dx <= last(
                area.loc.x,
                area.size.w,
            ) && before.loc.x <= before.right() ==> overshoot(p.x, after.loc.x, after.right())
                == dx / zoom.level
            &&& !before.holds(p) && area.loc.y <= zoom.focal_point.y + dy <= last(
                area.loc.y,
                area.size.h,
            ) && before.loc.y <= before.bottom() ==> overshoot(p.y, after.loc.y, after.bottom())
                == dy / zoom.level
        }),
{
    let area = output.local_area::<real>();
    let p = zoom.pointer_position;
    let f = zoom.focal_point;
    let l = zoom.level;
    let before = calm_area(magnified(area, f, l));
    let dx = overshoot(p.x, before.loc.x, before.right());
    let dy = overshoot(p.y, before.loc.y, before.bottom());
    lemma_calm_moves(area.loc.x, f.x, dx, l);
    lemma_calm_moves(area.loc.y, f.y, dy, l);
    lemma_same_side(dx, l);
    lemma_same_side(dy, l);
}

proof fn lemma_same_side(step: real, level: real)
    requires
        level >= 1real,
    ensures
        step < 0real ==> step <= step / level < 0real,
        step > 0real ==> 0real < step / level <= step,
        step == 0real ==> step / level == 0real,
{
    assert(step < 0real ==> step <= step / level < 0real) by (nonlinear_arith)
        requires
            level >= 1real,
    ;
    assert(step > 0real ==> 0real < step / level <= step) by (nonlinear_arith)
        requires
            level >= 1real,
    ;
    assert(step == 0real ==> step / level == 0real) by (nonlinear_arith)
        requires
            level >= 1real,
    ;
}

/// An animated change of level goes on from the level that is shown.
pub proof fn law_level_does_not_jump(
    zoom: OutputZoomState<real>,
    output: Output,
    position: Point<real, Local>,
    level: real,
    now: u64,
)
    requires
        zoom.animation_duration >= 1_000_000,
    ensures
        zoom.leveled(output, position, level, true, now).refocused(output, now).level_at(now)
            == zoom.level_at(now),
{
    let next = zoom.leveled(output, position, level, true, now).refocused(output, now);
    law_level_animation(next, zoom.level_at(now), now, now);
}

/// A change of movement goes on from the focal point that there is.
pub proof fn law_focal_point_does_not_jump(zoom: OutputZoomState<real>, output: Output, now: u64)
    requires
        zoom.animation_duration >= 1_000_000,
    ensures
        (OutputZoomState {
            previous_point: Some((zoom.focal_point, now)),
            ..zoom
        }).refocused(output, now).focus_shown(output, now) == zoom.focal_point,
{
    let next = (OutputZoomState {
        previous_point: Some((zoom.focal_point, now)),
        ..zoom
    }).refocused(output, now);
    let target = next.advanced(output, now).focal_point;
    lemma_eased(zoom.focal_point.x, target.x, 0, millis(zoom.animation_duration));
    lemma_eased(zoom.focal_point.y, target.y, 0, millis(zoom.animation_duration));
}

/// An animated change of level that is followed at the edge goes on from the focal point
/// that the pointer called for.
pub proof fn law_animated_level_keeps_focus(
    zoom: OutputZoomState<real>,
    output: Output,
    position: Point<real, Local>,
    level: real,
    now: u64,
)
    requires
        zoom.movement is OnEdge,
        zoom.animation_duration >= 1_000_000,
    ensures
        zoom.leveled(output, position, level, true, now).refocused(output, now).focus_shown(
            output,
            now,
        ) == zoom.pointed(output, position, now).focal_point,
{
    law_focal_point_does_not_jump(
        zoom.leveled(output, position, level, true, now),
        output,
        now,
    );
}

/// A step in and a step out by the same percentage cancel.
pub proof fn law_steps_cancel(level: real, increment: u32)
    ensures
        level.plus(step_of(Direction::In, increment)).plus(step_of(Direction::Out, increment))
            == level,
{
}

/// Once its duration is over, no animation is recorded any more.
pub proof fn law_animations_end<A: Arith>(zoom: OutputZoomState<A>, output: Output, now: u64)
    requires
        zoom.previous_level matches Some((_, start)) ==> passed(start, now)
            > zoom.animation_duration,
        zoom.previous_point matches Some((_, start)) ==> passed(start, now)
            > zoom.animation_duration,
    ensures
        !zoom.settled(now).advanced(output, now).animating(),
        zoom.settled(now).level_at(now) == zoom.level,
        zoom.settled(now).focus_shown(output, now) == zoom.settled(now).advanced(
            output,
            now,
        ).focal_point,
{
}

/// The overlay stands in the middle of the output's width, and its middle at three quarters
/// of the output's height.
pub proof fn law_overlay_is_centred(output: Output, size: Size<i32, Local>)
    ensures
        ({
            let overlay = overlay_area::<real>(output, size);
            let area = output.local_area::<real>();
            &&& overlay.loc.x - area.loc.x == area.right() - overlay.right()
            &&& 4real * (overlay.loc.y + overlay.size.h / 2real) == 3real * area.size.h
        }),
{
    let area = output.local_area::<real>();
    let w = real::whole(size.w as i64);
    let h = real::whole(size.h as i64);
    lemma_over_times(area.size.w, 2real);
    lemma_over_times(w, 2real);
    lemma_over_times(h, 2real);
    lemma_over_times(area.size.h, 4real);
    let quarter = area.size.h / 4real;
    assert(quarter * 3real + quarter == quarter * 4real) by (nonlinear_arith);
}

} // verus!
