//! What the operations of the magnifier do, said of what goes in and what comes out.
//!
//! Numbers are the mathematical reals here, and an output is known by its four integers. What
//! is left in place counts as much as what changes.
use crate::config::{ZoomConfig, ZoomMovement};
use crate::geometry::{Global, Local, Output, Point, Rectangle, Size};
use crate::laws::lemma_over_times;
use crate::message::ZoomMessage;
use crate::output_zoom::{
    allowed_level, calm_area, drawn_at, magnified, overlay_area, overlay_extent,
    overlay_scale_of, overshoot, OutputZoomState,
};
use crate::program::{controls_of, Control, ProgramView};
use crate::scalar::{clamped, Arith, Scalar};
use crate::zoom_state::overlay_shown;
use vstd::prelude::*;

verus! {

/// Whether `held` is the number from `low` to `high` that is nearest to `wanted`.
pub open spec fn nearest_within(held: real, wanted: real, low: real, high: real) -> bool {
    &&& low <= held <= high
    &&& wanted < low ==> held == low
    &&& high < wanted ==> held == high
    &&& low <= wanted <= high ==> held == wanted
}

/// How far two numbers lie apart.
pub open spec fn distance(a: real, b: real) -> real {
    if a < b {
        b - a
    } else {
        a - b
    }
}

/// No number from `low` to `high` is nearer than the nearest.
pub proof fn law_nearest_within(held: real, wanted: real, low: real, high: real, other: real)
    requires
        nearest_within(held, wanted, low, high),
        low <= other <= high,
    ensures
        distance(held, wanted) <= distance(other, wanted),
{
}

/// A number is held at the end that it lies beyond, and where it is if it lies between them.
pub proof fn law_clamped(value: real, low: real, high: real)
    requires
        low <= high,
    ensures
        nearest_within(clamped(value, low, high), value, low, high),
{
}

/// Whatever the scalar, a number beyond an end of a range is held at that end, and no other is
/// changed.
pub proof fn law_clamped_at_ends<A: Arith>(value: A, low: A, high: A)
    ensures
        value.below(low) ==> clamped(value, low, high) == low,
        !value.below(low) && high.below(value) ==> clamped(value, low, high) == high,
        !value.below(low) && !high.below(value) ==> clamped(value, low, high) == value,
{
}

/// Points are the same only if both of their coordinates are, whatever the scalar; over the
/// reals, only if they are equal.
pub proof fn law_same_points<A: Arith, K>(
    a: Point<A, K>,
    b: Point<A, K>,
    p: Point<real, K>,
    q: Point<real, K>,
)
    ensures
        a.same(b) ==> a.x.same(b.x),
        a.same(b) ==> a.y.same(b.y),
        a.x.same(b.x) && a.y.same(b.y) ==> a.same(b),
        p.same(q) <==> p == q,
{
}

/// Points are added, subtracted, multiplied and divided coordinate by coordinate.
pub proof fn law_point_arithmetic<K>(p: Point<real, K>, q: Point<real, K>, factor: real)
    ensures
        p.plus(q).x == p.x + q.x,
        p.plus(q).y == p.y + q.y,
        p.minus(q).plus(q) == p,
        p.plus(q).minus(q) == p,
        p.upscaled(factor).x == p.x * factor,
        p.upscaled(factor).y == p.y * factor,
        factor != 0real ==> p.upscaled(factor).downscaled(factor) == p,
        factor != 0real ==> p.downscaled(factor).upscaled(factor) == p,
{
    if factor != 0real {
        lemma_over_times(p.x, factor);
        lemma_over_times(p.y, factor);
    }
}

/// A point is in a rectangle from its near edges up to its far ones, which are outside.
pub proof fn law_rectangle_holds<K>(area: Rectangle<real, K>, p: Point<real, K>)
    ensures
        area.holds(p) <==> area.loc.x <= p.x < area.loc.x + area.size.w && area.loc.y <= p.y
            < area.loc.y + area.size.h,
        area.right() == area.loc.x + area.size.w,
        area.bottom() == area.loc.y + area.size.h,
{
}

/// A border is taken off every side of a rectangle.
pub proof fn law_rectangle_shrinks<K>(area: Rectangle<real, K>, margin: real)
    ensures
        area.shrunk(margin).loc.x - area.loc.x == margin,
        area.shrunk(margin).loc.y - area.loc.y == margin,
        area.right() - area.shrunk(margin).right() == margin,
        area.bottom() - area.shrunk(margin).bottom() == margin,
{
}

/// An output's corner, area and spaces, from its integers.
pub proof fn law_output(output: Output, p: Point<real, Local>, pos: Point<real, Global>)
    ensures
        ({
            let left = output.loc.x as int as real;
            let top = output.loc.y as int as real;
            let w = output.size.w as int as real;
            let h = output.size.h as int as real;
            let outside = output.global_area::<real>();
            let inside = output.local_area::<real>();
            &&& output.corner::<real>().x == left && output.corner::<real>().y == top
            &&& outside.loc.x == left && outside.loc.y == top
            &&& outside.size.w == w && outside.size.h == h
            &&& inside.loc.x == 0real && inside.loc.y == 0real
            &&& inside.size.w == w && inside.size.h == h
            &&& output.localized(pos).x == pos.x - left
            &&& output.localized(pos).y == pos.y - top
            &&& output.globalized(p).x == p.x + left
            &&& output.globalized(p).y == p.y + top
        }),
{
}

/// Whether `part` is what fills `area` when it is magnified by `level` around `focus`: the
/// area's sides are the level times the part's, and so is the way from the corner to the focus.
pub open spec fn fills<K>(
    part: Rectangle<real, K>,
    area: Rectangle<real, K>,
    focus: Point<real, K>,
    level: real,
) -> bool {
    &&& part.size.w * level == area.size.w
    &&& part.size.h * level == area.size.h
    &&& (focus.x - part.loc.x) * level == focus.x - area.loc.x
    &&& (focus.y - part.loc.y) * level == focus.y - area.loc.y
}

proof fn lemma_magnified_fills<K>(
    area: Rectangle<real, K>,
    focus: Point<real, K>,
    level: real,
)
    requires
        level != 0real,
    ensures
        fills(magnified(area, focus, level), area, focus, level),
{
    let qx = (area.loc.x - focus.x) / level;
    let qy = (area.loc.y - focus.y) / level;
    lemma_over_times(area.size.w, level);
    lemma_over_times(area.size.h, level);
    lemma_over_times(area.loc.x - focus.x, level);
    lemma_over_times(area.loc.y - focus.y, level);
    assert((focus.x - (qx + focus.x)) * level == 0real - qx * level) by (nonlinear_arith);
    assert((focus.y - (qy + focus.y)) * level == 0real - qy * level) by (nonlinear_arith);
}

/// What is shown of an area, or of the output if none is given, fills it around the focal
/// point: at the target level in the output's space, and at the level of the moment in the
/// global one.
pub proof fn law_shown_parts(
    zoom: OutputZoomState<real>,
    output: Output,
    area: Rectangle<real, Local>,
    wide: Rectangle<real, Global>,
    own: Rectangle<real, Local>,
    own_wide: Rectangle<real, Global>,
    focus: Point<real, Global>,
    now: u64,
)
    requires
        own.loc.x == 0real && own.loc.y == 0real,
        own.size.w == output.size.w as int as real && own.size.h == output.size.h as int as real,
        own_wide.loc.x == output.loc.x as int as real && own_wide.loc.y
            == output.loc.y as int as real,
        own_wide.size.w == own.size.w && own_wide.size.h == own.size.h,
        focus.x == zoom.focal_point.x + own_wide.loc.x,
        focus.y == zoom.focal_point.y + own_wide.loc.y,
        zoom.level != 0real,
        zoom.level_at(now) != 0real,
    ensures
        fills(zoom.part_shown(output, Some(area)), area, zoom.focal_point, zoom.level),
        fills(zoom.part_shown(output, None), own, zoom.focal_point, zoom.level),
        fills(
            zoom.global_part_shown(output, Some(wide), now),
            wide,
            focus,
            zoom.level_at(now),
        ),
        fills(
            zoom.global_part_shown(output, None, now),
            own_wide,
            focus,
            zoom.level_at(now),
        ),
{
    lemma_magnified_fills(area, zoom.focal_point, zoom.level);
    lemma_magnified_fills(output.local_area::<real>(), zoom.focal_point, zoom.level);
    lemma_magnified_fills(wide, output.globalized(zoom.focal_point), zoom.level_at(now));
    lemma_magnified_fills(
        output.global_area::<real>(),
        output.globalized(zoom.focal_point),
        zoom.level_at(now),
    );
}

/// The whole milliseconds from `start` to `now`, none if the clock stands before it.
pub open spec fn since(start: u64, now: u64) -> int {
    if now < start {
        0
    } else {
        (now - start) / 1_000_000
    }
}

/// Whether `shown` is on the way from `from` to `to` at constant speed, `elapsed` of `duration`
/// milliseconds after the start, and at the end from then on.
pub open spec fn on_the_way(
    shown: real,
    from: real,
    to: real,
    elapsed: int,
    duration: int,
) -> bool {
    if elapsed < duration {
        (shown - from) * (duration as real) == (to - from) * (elapsed as real)
    } else {
        shown == to
    }
}

proof fn lemma_eased_on_the_way(from: real, to: real, elapsed: u64, duration: u64)
    ensures
        on_the_way(
            real::eased(from, to, elapsed, duration),
            from,
            to,
            elapsed as int,
            duration as int,
        ),
{
    if elapsed < duration {
        let d = duration as int as real;
        let e = elapsed as int as real;
        let part = e / d;
        lemma_over_times(e, d);
        assert((from + (to - from) * part - from) * d == (to - from) * (part * d))
            by (nonlinear_arith);
    }
}

/// The level of the moment: the target, or on the way to it from the level that an animation
/// started from.
pub proof fn law_level_shown(zoom: OutputZoomState<real>, now: u64)
    ensures
        match zoom.previous_level {
            Some((old_level, start)) => on_the_way(
                zoom.level_at(now),
                old_level,
                zoom.level,
                since(start, now),
                zoom.animation_duration as int / 1_000_000,
            ),
            None => zoom.level_at(now) == zoom.level,
        },
{
    if let Some((old_level, start)) = zoom.previous_level {
        let passed = if now >= start {
            (now - start) as u64
        } else {
            0u64
        };
        lemma_eased_on_the_way(
            old_level,
            zoom.level,
            passed / 1_000_000,
            zoom.animation_duration / 1_000_000,
        );
    }
}

/// A global point is shown as far from the focal point as it is from there, times the level of
/// the moment.
pub proof fn law_on_screen(
    zoom: OutputZoomState<real>,
    output: Output,
    pos: Point<real, Global>,
    now: u64,
)
    requires
        zoom.level_at(now) != 0real,
    ensures
        ({
            let shown = zoom.on_screen(pos, output, now);
            let f = zoom.focal_point;
            let level = zoom.level_at(now);
            &&& shown.x - f.x == (pos.x - (f.x + output.loc.x as int as real)) * level
            &&& shown.y - f.y == (pos.y - (f.y + output.loc.y as int as real)) * level
        }),
{
    let l = zoom.level_at(now);
    let f = zoom.focal_point;
    let left = output.loc.x as int as real;
    let top = output.loc.y as int as real;
    assert(left - (f.x + left) == 0real - f.x);
    assert(top - (f.y + top) == 0real - f.y);
    let qx = (0real - f.x) / l;
    let qy = (0real - f.y) / l;
    lemma_over_times(0real - f.x, l);
    lemma_over_times(0real - f.y, l);
    assert((pos.x - (qx + (f.x + left))) * l == (pos.x - (f.x + left)) * l - qx * l)
        by (nonlinear_arith);
    assert((pos.y - (qy + (f.y + top))) * l == (pos.y - (f.y + top)) * l - qy * l)
        by (nonlinear_arith);
}

/// The range of a coordinate in which the pointer does not move the magnified area: what is
/// shown of a screen that starts at zero, less a fiftieth of the height shown at both ends.
pub open spec fn calm_range(size: real, height: real, focus: real, level: real) -> (real, real) {
    let margin = height / level / 50real;
    let first = focus + (0real - focus) / level;
    (first + margin, first + size / level - margin)
}

/// Whether the pointer lies in both of its calm ranges.
pub open spec fn calm(
    output: Output,
    focus: Point<real, Local>,
    level: real,
    pointer: Point<real, Local>,
) -> bool {
    let w = output.size.w as int as real;
    let h = output.size.h as int as real;
    let across = calm_range(w, h, focus.x, level);
    let down = calm_range(h, h, focus.y, level);
    &&& across.0 <= pointer.x < across.1
    &&& down.0 <= pointer.y < down.1
}

/// Whether a focal coordinate was pushed by as much as the pointer is beyond its calm range, and
/// no farther than to the first or the last coordinate of the screen.
pub open spec fn pushed(
    after: real,
    before: real,
    pointer: real,
    range: (real, real),
    size: real,
) -> bool {
    let wanted = if pointer < range.0 {
        before - (range.0 - pointer)
    } else if pointer > range.1 {
        before + (pointer - range.1)
    } else {
        before
    };
    nearest_within(after, wanted, 0real, size - 1real)
}

/// Whether the picture of a screen, magnified around `focus`, is shifted so that the pointer is
/// shown in the middle, or as near to it as it can be shifted without baring an edge.
pub open spec fn shifted_to_middle(focus: real, pointer: real, size: real, level: real) -> bool {
    nearest_within(
        focus * (1real - level),
        size / 2real - pointer * level,
        size * (1real - level),
        0real,
    )
}

/// Whether the movement and the pointer of a state call for the focal point `focus`, where
/// `level` is the level of the moment.
pub open spec fn calls_for(
    zoom: OutputZoomState<real>,
    output: Output,
    level: real,
    focus: Point<real, Local>,
) -> bool {
    let w = output.size.w as int as real;
    let h = output.size.h as int as real;
    let before = zoom.focal_point;
    let pointer = zoom.pointer_position;
    match zoom.movement {
        ZoomMovement::Continuously => focus == pointer,
        ZoomMovement::OnEdge => if calm(output, before, zoom.level, pointer) {
            focus == before
        } else {
            let across = calm_range(w, h, before.x, zoom.level);
            let down = calm_range(h, h, before.y, zoom.level);
            &&& pushed(focus.x, before.x, pointer.x, across, w)
            &&& pushed(focus.y, before.y, pointer.y, down, h)
        },
        ZoomMovement::Centered => level != 1real ==> {
            &&& shifted_to_middle(focus.x, pointer.x, w, level)
            &&& shifted_to_middle(focus.y, pointer.y, h, level)
        },
    }
}

proof fn lemma_margin(height: real, level: real)
    ensures
        (height / level) * (2real / 100real) == height / level / 50real,
{
    let q = height / level;
    assert(q * (2real / 100real) == q / 50real) by (nonlinear_arith);
}

/// The focal point is set to the one that the movement and the pointer call for, and nothing
/// else is changed.
pub proof fn law_focal_point(zoom: OutputZoomState<real>, output: Output, now: u64)
    requires
        zoom.focusable(output, now),
    ensures
        ({
            let next = zoom.refocused(output, now);
            &&& calls_for(zoom, output, zoom.level_at(now), next.focal_point)
            &&& next == OutputZoomState { focal_point: next.focal_point, ..zoom }
        }),
{
    let w = output.size.w as int as real;
    let h = output.size.h as int as real;
    let l = zoom.level;
    let shown = zoom.level_at(now);
    lemma_margin(h, l);
    let next = zoom.refocused(output, now);
    if zoom.movement is Centered && shown != 1real {
        let rest = 1real - shown;
        lemma_over_times(
            clamped(w / 2real - zoom.pointer_position.x * shown, w * rest, 0real),
            rest,
        );
        lemma_over_times(
            clamped(h / 2real - zoom.pointer_position.y * shown, h * rest, 0real),
            rest,
        );
    }
}

/// The focal point can be set exactly where its bounds are in order: continuously always; at
/// the edge if the pointer is calm or the output has pixels; in the middle unless a shift would
/// have to bare an edge.
pub proof fn law_when_focusable(zoom: OutputZoomState<real>, output: Output, now: u64)
    ensures
        ({
            let w = output.size.w as int as real;
            let h = output.size.h as int as real;
            let rest = 1real - zoom.level_at(now);
            zoom.focusable(output, now) <==> match zoom.movement {
                ZoomMovement::Continuously => true,
                ZoomMovement::OnEdge => calm(
                    output,
                    zoom.focal_point,
                    zoom.level,
                    zoom.pointer_position,
                ) || (output.size.w >= 1 && output.size.h >= 1),
                ZoomMovement::Centered => w * rest <= 0real && h * rest <= 0real,
            }
        }),
{
    let h = output.size.h as int as real;
    lemma_margin(h, zoom.level);
}

/// Whatever the scalar, a focal coordinate that is pushed beyond an end of the output at the
/// edge is held at that end.
pub proof fn law_edge_focus_is_held<A: Arith>(zoom: OutputZoomState<A>, output: Output, now: u64)
    requires
        zoom.movement is OnEdge,
    ensures
        ({
            let area = output.local_area::<A>();
            let focus = zoom.focus_at(output, now);
            let held = calm_area(magnified(area, zoom.focal_point, zoom.level));
            let x = zoom.focal_point.x.plus(
                overshoot(zoom.pointer_position.x, held.loc.x, held.right()),
            );
            let y = zoom.focal_point.y.plus(
                overshoot(zoom.pointer_position.y, held.loc.y, held.bottom()),
            );
            let far_x = area.loc.x.plus(area.size.w).minus(A::whole(1));
            let far_y = area.loc.y.plus(area.size.h).minus(A::whole(1));
            !held.holds(zoom.pointer_position) ==> {
                &&& x.below(area.loc.x) ==> focus.x == area.loc.x
                &&& !x.below(area.loc.x) && far_x.below(x) ==> focus.x == far_x
                &&& !x.below(area.loc.x) && !far_x.below(x) ==> focus.x == x
                &&& y.below(area.loc.y) ==> focus.y == area.loc.y
                &&& !y.below(area.loc.y) && far_y.below(y) ==> focus.y == far_y
                &&& !y.below(area.loc.y) && !far_y.below(y) ==> focus.y == y
            }
        }),
{
}

/// A pointer that moves is where it was moved to, in both coordinates, and the focal point is
/// the one called for there; a pointer that does not move changes nothing.
pub proof fn law_pointer_moves(
    zoom: OutputZoomState<real>,
    output: Output,
    position: Point<real, Local>,
    now: u64,
)
    requires
        position == zoom.pointer_position || (OutputZoomState {
            pointer_position: position,
            ..zoom
        }).focusable(output, now),
    ensures
        ({
            let next = zoom.moved(output, position, now);
            let there = OutputZoomState { pointer_position: position, ..zoom };
            &&& next.pointer_position.x == position.x
            &&& next.pointer_position.y == position.y
            &&& next == OutputZoomState { focal_point: next.focal_point, ..there }
            &&& if position.x == zoom.pointer_position.x && position.y == zoom.pointer_position.y {
                next.focal_point == zoom.focal_point
            } else {
                calls_for(there, output, zoom.level_at(now), next.focal_point)
            }
        }),
{
    let there = OutputZoomState { pointer_position: position, ..zoom };
    assert(there.level_at(now) == zoom.level_at(now));
    if position != zoom.pointer_position {
        law_focal_point(there, output, now);
    }
}

/// Whatever the scalar, a pointer that moves in either coordinate is where it was moved to.
pub proof fn law_pointer_is_recorded<A: Arith>(
    zoom: OutputZoomState<A>,
    output: Output,
    position: Point<A, Local>,
    now: u64,
)
    requires
        !position.x.same(zoom.pointer_position.x) || !position.y.same(zoom.pointer_position.y),
    ensures
        zoom.moved(output, position, now).pointer_position == position,
        zoom.movement is Continuously ==> zoom.moved(output, position, now).focal_point
            == position,
{
}

/// New settings are taken over. A new movement puts the focal point where it calls for it and
/// records the animation that leads there from the present one; nothing else is changed.
pub proof fn law_settings_are_taken_over(
    zoom: OutputZoomState<real>,
    output: Output,
    config: ZoomConfig,
    now: u64,
)
    requires
        config.view_moves != zoom.movement ==> (OutputZoomState {
            movement: config.view_moves,
            ..zoom
        }).focusable(output, now),
    ensures
        ({
            let next = zoom.reconfigured(output, config, now);
            let there = OutputZoomState { movement: config.view_moves, ..zoom };
            &&& next.show_overlay == config.show_overlay
            &&& next.movement == config.view_moves
            &&& next.level == zoom.level
            &&& next.previous_level == zoom.previous_level
            &&& next.pointer_position == zoom.pointer_position
            &&& next.animation_duration == zoom.animation_duration
            &&& if config.view_moves == zoom.movement {
                next.focal_point == zoom.focal_point && next.previous_point == zoom.previous_point
            } else {
                &&& next.previous_point == Some((zoom.focal_point, now))
                &&& calls_for(there, output, zoom.level_at(now), next.focal_point)
            }
            &&& zoom.reported(config) matches ZoomMessage::Update { level, increment, movement }
                && level == next.level && increment == config.increment && movement
                == next.movement
        }),
{
    if config.view_moves != zoom.movement {
        let there = OutputZoomState { movement: config.view_moves, ..zoom };
        let shown = OutputZoomState {
            previous_point: Some((zoom.focal_point, now)),
            show_overlay: config.show_overlay,
            ..there
        };
        assert(shown.level_at(now) == zoom.level_at(now));
        assert(shown.focusable(output, now));
        law_focal_point(shown, output, now);
    }
}

/// An output starts at the level that it is given, under the settings, with everything at its
/// corner and nothing on the way.
pub proof fn law_start(config: ZoomConfig, level: real, duration: u64, now: u64)
    ensures
        ({
            let zoom = OutputZoomState::<real>::started(config, level, duration);
            &&& zoom.level == level && zoom.level_at(now) == level
            &&& zoom.movement == config.view_moves
            &&& zoom.show_overlay == config.show_overlay
            &&& zoom.animation_duration == duration
            &&& zoom.pointer_position.x == 0real && zoom.pointer_position.y == 0real
            &&& zoom.focal_point == zoom.pointer_position
            &&& zoom.previous_level is None && zoom.previous_point is None
            &&& !zoom.animating()
        }),
{
}

/// A change of level takes the level from one to a hundred that is nearest to the one asked
/// for, with the pointer at its place.
///
/// Where nothing was magnified, it starts from the focal point that is called for once it has
/// been put at the pointer, otherwise from the present one; it ends at the one called for at the
/// new level. Animated, the level goes on from the one of the moment, and at the edge the focal
/// point goes on from the one that it starts from. To ask for the present level only moves the
/// pointer.
pub proof fn law_level_changes(
    zoom: OutputZoomState<real>,
    output: Output,
    position: Point<real, Local>,
    level: real,
    animate: bool,
    now: u64,
)
    requires
        zoom.levelable(output, position, level, animate, now),
    ensures
        ({
            let next = zoom.zoomed_to(output, position, level, animate, now);
            let aim = OutputZoomState { pointer_position: position, focal_point: position, ..zoom };
            let from = zoom.pointed(output, position, now).focal_point;
            &&& next.pointer_position == position
            &&& next.movement == zoom.movement
            &&& next.show_overlay == zoom.show_overlay
            &&& next.animation_duration == zoom.animation_duration
            &&& level == zoom.level ==> {
                &&& next.level == zoom.level
                &&& next.focal_point == zoom.focal_point
                &&& next.previous_level == zoom.previous_level
                &&& next.previous_point == zoom.previous_point
            }
            &&& level != zoom.level ==> {
                &&& nearest_within(next.level, level, 1real, 100real)
                &&& zoom.level == 1real ==> calls_for(aim, output, zoom.level_at(now), from)
                &&& zoom.level != 1real ==> from == zoom.focal_point
                &&& calls_for(
                    OutputZoomState { focal_point: from, ..next },
                    output,
                    next.level_at(now),
                    next.focal_point,
                )
                &&& next.previous_level == (if animate {
                    Some((zoom.level_at(now), now))
                } else {
                    zoom.previous_level
                })
                &&& next.previous_point == (if animate && zoom.movement is OnEdge {
                    Some((from, now))
                } else {
                    zoom.previous_point
                })
            }
        }),
{
    if level != zoom.level {
        let aim = OutputZoomState { pointer_position: position, focal_point: position, ..zoom };
        let set = zoom.leveled(output, position, level, animate, now);
        if zoom.level == 1real {
            assert(aim.level_at(now) == zoom.level_at(now));
            law_focal_point(aim, output, now);
        }
        law_focal_point(set, output, now);
        let next = zoom.zoomed_to(output, position, level, animate, now);
        assert(next.level_at(now) == set.level_at(now));
    }
}

proof fn lemma_stays_calm(size: real, height: real, focus: real, level: real)
    requires
        height / 50real <= focus < size - height / 50real,
        level > 0real,
    ensures
        calm_range(size, height, focus, level).0 <= focus < calm_range(
            size,
            height,
            focus,
            level,
        ).1,
{
    let margin = height / level / 50real;
    lemma_over_times(height, 50real);
    assert((0real - focus) / level == 0real - focus / level) by (nonlinear_arith)
        requires
            level > 0real,
    ;
    assert(margin <= focus / level && margin < size / level - focus / level) by (nonlinear_arith)
        requires
            level > 0real,
            margin == height / level / 50real,
            height / 50real <= focus,
            focus < size - height / 50real,
    ;
}

/// Zooming in from level one, followed at the edge, aims at the pointer: unless that is within a
/// fiftieth of the height of an edge of the output, it becomes the focal point and is shown
/// where it is.
pub proof fn law_zoom_in_aims_at_pointer(
    zoom: OutputZoomState<real>,
    output: Output,
    position: Point<real, Local>,
    level: real,
    animate: bool,
    now: u64,
)
    requires
        zoom.movement is OnEdge,
        zoom.level == 1real,
        level != 1real,
        ({
            let w = output.size.w as int as real;
            let h = output.size.h as int as real;
            let margin = h / 50real;
            margin <= position.x < w - margin && margin <= position.y < h - margin
        }),
    ensures
        ({
            let next = zoom.zoomed_to(output, position, level, animate, now);
            let there = output.globalized(position);
            &&& next.focal_point == position
            &&& next.level_at(now) != 0real ==> next.on_screen(there, output, now) == position
        }),
{
    let w = output.size.w as int as real;
    let h = output.size.h as int as real;
    let aim = OutputZoomState { pointer_position: position, focal_point: position, ..zoom };
    let set = zoom.leveled(output, position, level, animate, now);
    law_clamped(level, 1real, 100real);
    lemma_stays_calm(w, h, position.x, 1real);
    lemma_stays_calm(h, h, position.y, 1real);
    lemma_stays_calm(w, h, position.x, set.level);
    lemma_stays_calm(h, h, position.y, set.level);
    law_when_focusable(aim, output, now);
    law_focal_point(aim, output, now);
    assert(set.focal_point == position);
    law_when_focusable(set, output, now);
    law_focal_point(set, output, now);
    let next = zoom.zoomed_to(output, position, level, animate, now);
    if next.level_at(now) != 0real {
        law_on_screen(next, output, output.globalized(position), now);
        assert((position.x - position.x) * next.level_at(now) == 0real) by (nonlinear_arith);
        assert((position.y - position.y) * next.level_at(now) == 0real) by (nonlinear_arith);
        let shown = next.on_screen(output.globalized(position), output, now);
        assert(shown.x == position.x && shown.y == position.y);
    }
}

/// A level can be changed exactly where it is the present one, or the focal point can be set
/// both where the change aims at the pointer and at the new level.
pub proof fn law_when_levelable(
    zoom: OutputZoomState<real>,
    output: Output,
    position: Point<real, Local>,
    level: real,
    animate: bool,
    now: u64,
)
    ensures
        ({
            let aim = OutputZoomState { pointer_position: position, focal_point: position, ..zoom };
            let set = OutputZoomState {
                focal_point: zoom.pointed(output, position, now).focal_point,
                ..zoom.zoomed_to(output, position, level, animate, now)
            };
            zoom.levelable(output, position, level, animate, now) <==> (level == zoom.level || ((
            zoom.level == 1real ==> aim.focusable(output, now)) && set.focusable(output, now)))
        }),
{
    let aim = OutputZoomState { pointer_position: position, focal_point: position, ..zoom };
    if level != zoom.level {
        let next = zoom.zoomed_to(output, position, level, animate, now);
        let set = OutputZoomState {
            focal_point: zoom.pointed(output, position, now).focal_point,
            ..next
        };
        assert(set == zoom.leveled(output, position, level, animate, now));
        assert(zoom.aimed(position) == aim);
    }
}

/// An animation is recorded if one of the level or one of the focal point is.
pub proof fn law_animating(zoom: OutputZoomState<real>)
    ensures
        zoom.animating() <==> zoom.previous_level is Some || zoom.previous_point is Some,
{
}

/// The focal point of the moment: on the way to the present one from the one that an animation
/// started from, as long as it lasts; otherwise the present one. It follows the pointer first
/// wherever an animation is recorded, and the record of one that is over is dropped. Nothing else
/// is changed.
pub proof fn law_focal_point_shown(zoom: OutputZoomState<real>, output: Output, now: u64)
    requires
        zoom.animating() ==> zoom.focusable(output, now),
    ensures
        ({
            let next = zoom.advanced(output, now);
            let shown = zoom.focus_shown(output, now);
            let recorded = zoom.previous_level is Some || zoom.previous_point is Some;
            &&& next == OutputZoomState {
                focal_point: next.focal_point,
                previous_point: next.previous_point,
                ..zoom
            }
            &&& recorded ==> calls_for(zoom, output, zoom.level_at(now), next.focal_point)
            &&& !recorded ==> next.focal_point == zoom.focal_point
            &&& match zoom.previous_point {
                Some((from, start)) => if now >= start && now - start > zoom.animation_duration {
                    next.previous_point is None && shown == next.focal_point
                } else {
                    let elapsed = since(start, now);
                    let duration = zoom.animation_duration as int / 1_000_000;
                    &&& next.previous_point == zoom.previous_point
                    &&& on_the_way(shown.x, from.x, next.focal_point.x, elapsed, duration)
                    &&& on_the_way(shown.y, from.y, next.focal_point.y, elapsed, duration)
                },
                None => next.previous_point is None && shown == next.focal_point,
            }
        }),
{
    if zoom.animating() {
        law_focal_point(zoom, output, now);
    }
    let target = zoom.advanced(output, now).focal_point;
    if let Some((from, start)) = zoom.previous_point {
        let passed = if now >= start {
            (now - start) as u64
        } else {
            0u64
        };
        let duration = zoom.animation_duration / 1_000_000;
        lemma_eased_on_the_way(from.x, target.x, passed / 1_000_000, duration);
        lemma_eased_on_the_way(from.y, target.y, passed / 1_000_000, duration);
    }
}

/// The record of an animation of the level is dropped exactly once it is over, nothing else is
/// changed, and an output is at rest if it is at level one with no such record.
pub proof fn law_refresh(zoom: OutputZoomState<real>, now: u64)
    ensures
        ({
            let next = zoom.settled(now);
            &&& next == OutputZoomState { previous_level: next.previous_level, ..zoom }
            &&& match zoom.previous_level {
                Some((_, start)) => if now >= start && now - start > zoom.animation_duration {
                    next.previous_level is None
                } else {
                    next.previous_level == zoom.previous_level
                },
                None => next.previous_level is None,
            }
            &&& next.at_rest() <==> zoom.level == 1real && next.previous_level is None
        }),
{
}

/// The overlay has the size that it is given, in the middle of the output's width, with its own
/// middle at three quarters of the output's height.
pub proof fn law_overlay_area(output: Output, size: Size<i32, Local>)
    ensures
        ({
            let overlay = overlay_area::<real>(output, size);
            let w = output.size.w as int as real;
            let h = output.size.h as int as real;
            &&& overlay.size.w == size.w as int as real
            &&& overlay.size.h == size.h as int as real
            &&& 2real * overlay.loc.x + overlay.size.w == w
            &&& 4real * overlay.loc.y + 2real * overlay.size.h == 3real * h
        }),
{
    let w = output.size.w as int as real;
    let h = output.size.h as int as real;
    lemma_over_times(w, 2real);
    lemma_over_times(h, 4real);
    lemma_over_times(size.w as int as real, 2real);
    lemma_over_times(size.h as int as real, 2real);
    let quarter = h / 4real;
    assert(4real * (quarter * 3real) == 3real * (quarter * 4real)) by (nonlinear_arith);
}

/// The overlay is hit exactly where it is shown: by the points that are shown from its left up
/// to its right edge and from its top up to its bottom edge.
///
/// The location that is reported lies off the place where the overlay's corner is shown by as
/// much as the pointer's way from there falls short of its way on the screen.
pub proof fn law_overlay_under(
    zoom: OutputZoomState<real>,
    output: Output,
    size: Size<i32, Local>,
    pos: Point<real, Global>,
    corner: Point<real, Global>,
    now: u64,
)
    requires
        zoom.level_at(now) != 0real,
        ({
            let shown = zoom.on_screen(corner, output, now);
            let w = size.w as int as real;
            let h = size.h as int as real;
            &&& 2real * shown.x == output.size.w as int as real - w
            &&& 4real * shown.y == 3real * (output.size.h as int as real) - 2real * h
        }),
    ensures
        ({
            let shown = zoom.on_screen(pos, output, now);
            let at = zoom.on_screen(corner, output, now);
            let w = size.w as int as real;
            let h = size.h as int as real;
            let result = zoom.overlay_under(output, size, pos, now);
            &&& result is Some <==> at.x <= shown.x < at.x + w && at.y <= shown.y < at.y + h
            &&& result matches Some(location) ==> {
                &&& location.x == corner.x - (pos.x - corner.x) * (zoom.level - 1real)
                &&& location.y == corner.y - (pos.y - corner.y) * (zoom.level - 1real)
            }
        }),
{
    let overlay = overlay_area::<real>(output, size);
    let at = zoom.on_screen(corner, output, now);
    law_overlay_area(output, size);
    assert(at.x == overlay.loc.x && at.y == overlay.loc.y);
    let l = zoom.level_at(now);
    let view = zoom.global_view(output.global_area(), output, now);
    lemma_over_times(corner.x - view.loc.x, l);
    lemma_over_times(corner.y - view.loc.y, l);
    let origin = zoom.shown_at(overlay.loc, output, now);
    assert(origin.x == corner.x && origin.y == corner.y);
}

/// The overlay is drawn at the level, and at four times its size at most.
pub proof fn law_overlay_scale(level: real)
    ensures
        level <= 4real ==> overlay_scale_of(level) == level,
        level > 4real ==> overlay_scale_of(level) == 4real,
{
}

/// A new overlay is thirty-two wider than its controls ask for, but no wider than the output,
/// and as high as they ask for.
pub proof fn law_overlay_size(minimum: Size<i32, Local>, output: Output)
    requires
        minimum.w + 32 <= i32::MAX,
    ensures
        ({
            let size = overlay_extent(minimum, output);
            &&& size.h == minimum.h
            &&& size.w <= minimum.w + 32 && size.w <= output.size.w
            &&& size.w == minimum.w + 32 || size.w == output.size.w
        }),
{
}

/// The overlay is shown where the settings have it and something is, or will be, magnified.
pub proof fn law_overlay_shown(zoom: OutputZoomState<real>)
    ensures
        overlay_shown(zoom) <==> zoom.show_overlay && zoom.level > 1real,
{
}

/// Whatever the scalar, a level below one is taken as one, one above a hundred as that, and any
/// other as it is.
pub proof fn law_level_taken<A: Arith>(level: A)
    ensures
        level.below(A::whole(1)) ==> allowed_level(level) == A::whole(1),
        !level.below(A::whole(1)) && A::whole(100).below(level) ==> allowed_level(level)
            == A::whole(100),
        !level.below(A::whole(1)) && !A::whole(100).below(level) ==> allowed_level(level) == level,
{
}

/// A change of level is reported with the level that was taken, unless it is the present one. An
/// overlay that is shown is told to follow an animation, or is scaled at once: by the percentage
/// that it then shows.
pub proof fn law_change_is_reported<S: Scalar>(
    zoom: OutputZoomState<S>,
    output: Output,
    position: Point<S, Local>,
    level: S,
    animate: bool,
    increment: u32,
    shown: ProgramView<S>,
    now: u64,
)
    requires
        shown.level == zoom.zoomed_to(output, position, level, animate, now).level,
    ensures
        ({
            let change = zoom.change_to(level, animate, increment);
            &&& change is None <==> level.same(zoom.level)
            &&& change matches Some(change) ==> {
                &&& change.follow <==> zoom.show_overlay && animate
                &&& change.scale is Some <==> zoom.show_overlay && !animate
                &&& change.message == ZoomMessage::Update {
                    level: shown.level,
                    increment,
                    movement: zoom.movement,
                }
                &&& change.scale matches Some(scale) ==> (controls_of(shown)[1] matches
                    Control::Percent(percent) && scale == percent.over(S::whole(100)).lesser(
                    S::whole(4),
                ))
            }
        }),
{
}

/// While an animation is recorded the overlay is scaled by the percentage of the level of the
/// moment, and not followed any more once none is.
pub proof fn law_animation_is_followed<S: Scalar>(
    zoom: OutputZoomState<S>,
    shown: ProgramView<S>,
    now: u64,
)
    requires
        shown.level == zoom.level_at(now),
    ensures
        zoom.followed(now) is Some <==> zoom.previous_level is Some || zoom.previous_point is Some,
        zoom.followed(now) matches Some(scale) ==> (controls_of(shown)[1] matches Control::Percent(
            percent,
        ) && scale == percent.over(S::whole(100)).lesser(S::whole(4))),
{
}

/// The overlay is drawn at the pixel nearest to its corner times the output's scale.
pub proof fn law_overlay_is_drawn<S: Scalar>(output: Output, size: Size<i32, Local>, scale: S)
    ensures
        ({
            let corner = overlay_area::<S>(output, size).loc;
            let pixel = drawn_at(output, size, scale);
            &&& pixel.x == corner.x.times(scale).nearest().integer()
            &&& pixel.y == corner.y.times(scale).nearest().integer()
        }),
{
}

} // verus!
