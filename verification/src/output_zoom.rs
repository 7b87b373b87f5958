//! The magnification of one output.
use crate::config::{ZoomConfig, ZoomMovement};
use crate::geometry::{extent, point, Global, Local, Output, Physical, Point, Rectangle, Size};
use crate::message::ZoomMessage;
use crate::scalar::{clamp, clamped, Arith, Scalar};
use vstd::prelude::*;

verus! {

/// The highest zoom level.
pub const MAX_ZOOM: i64 = 100;

/// The highest scale at which the overlay is drawn.
pub const MAX_OVERLAY_SCALE: i64 = 4;

/// By how much the overlay is wider than the narrowest width that its controls ask for.
pub const OVERLAY_EXTRA_WIDTH: i32 = 32;

/// How one output is magnified, and the animations that lead there.
///
/// Times are in nanoseconds on a clock that the caller reads.
#[derive(Debug)]
pub struct OutputZoomState<S> {
    /// The zoom level that is shown, or that the running animation leads to.
    pub level: S,
    /// How the magnified area follows the pointer.
    pub movement: ZoomMovement,
    /// Where the pointer is.
    pub pointer_position: Point<S, Local>,
    /// The level that an animation started from, and when.
    pub previous_level: Option<(S, u64)>,
    /// The point that magnification leaves in place.
    pub focal_point: Point<S, Local>,
    /// The focal point that an animation started from, and when.
    pub previous_point: Option<(Point<S, Local>, u64)>,
    /// Whether the overlay is shown over the magnified output.
    pub show_overlay: bool,
    /// How long an animation lasts.
    pub animation_duration: u64,
}

impl<S: Copy> Clone for OutputZoomState<S> {
    fn clone(&self) -> (result: Self)
        ensures
            result == *self,
    {
        *self
    }
}

impl<S: Copy> Copy for OutputZoomState<S> {

}

/// What a change of level asks of the overlay.
#[derive(Debug, PartialEq)]
pub struct LevelChange<S> {
    /// The scale to draw the overlay at from now on.
    pub scale: Option<S>,
    /// Whether the overlay's scale has to follow an animation.
    pub follow: bool,
    /// The message to show the new state with.
    pub message: ZoomMessage<S>,
}

/// The time that has passed at `now` since `start`; none if the clock stands before it.
pub open spec fn passed(start: u64, now: u64) -> u64 {
    if now >= start {
        (now - start) as u64
    } else {
        0
    }
}

/// The whole milliseconds in that many nanoseconds.
pub open spec fn millis(nanos: u64) -> u64 {
    nanos / 1_000_000
}

fn time_passed(start: u64, now: u64) -> (result: u64)
    ensures
        result == passed(start, now),
{
    if now >= start {
        now - start
    } else {
        0
    }
}

/// The part of `area` that fills it when magnified to `level` around `focus`.
pub open spec fn magnified<A: Arith, K>(
    area: Rectangle<A, K>,
    focus: Point<A, K>,
    level: A,
) -> Rectangle<A, K> {
    let seen = Rectangle { loc: area.loc.minus(focus), size: area.size }.downscaled(level);
    Rectangle { loc: seen.loc.plus(focus), size: seen.size }
}

fn magnify<S: Scalar, K>(area: Rectangle<S, K>, focus: Point<S, K>, level: S) -> (result: Rectangle<
    S,
    K,
>)
    ensures
        result == magnified(area, focus, level),
{
    let seen = Rectangle::new(area.loc.sub(focus), area.size).downscale(level);
    Rectangle::new(seen.loc.add(focus), seen.size)
}

/// The part of a magnified area that the pointer can move in without moving the area: a
/// fiftieth of the height is kept free on every side.
pub open spec fn calm_area<A: Arith>(zoomed: Rectangle<A, Local>) -> Rectangle<A, Local> {
    zoomed.shrunk(zoomed.size.h.times(A::whole(2).over(A::whole(100))))
}

/// How far a coordinate lies outside of the range from `low` to `high`.
pub open spec fn overshoot<A: Arith>(coordinate: A, low: A, high: A) -> A {
    if coordinate.below(low) {
        coordinate.minus(low)
    } else if high.below(coordinate) {
        coordinate.minus(high)
    } else {
        A::whole(0)
    }
}

fn measure_overshoot<S: Scalar>(coordinate: S, low: S, high: S) -> (result: S)
    ensures
        result == overshoot(coordinate, low, high),
{
    if coordinate.lt(low) {
        coordinate.sub(low)
    } else if high.lt(coordinate) {
        coordinate.sub(high)
    } else {
        S::from_int(0)
    }
}

/// The last coordinate of a range of that size.
pub open spec fn last<A: Arith>(low: A, size: A) -> A {
    low.plus(size).minus(A::whole(1))
}

/// By how much the magnified picture is shifted at most so that it still covers the screen.
pub open spec fn farthest_shift<A: Arith>(size: A, level: A) -> A {
    size.times(A::whole(1).minus(level))
}

/// The focal coordinate that shows `coordinate` in the middle of a screen of that size, or
/// as near to the middle as the screen's edges allow.
pub open spec fn centering<A: Arith>(coordinate: A, size: A, level: A) -> A {
    let shift = size.over(A::whole(2)).minus(coordinate.times(level));
    clamped(shift, farthest_shift(size, level), A::whole(0)).over(A::whole(1).minus(level))
}

fn center<S: Scalar>(coordinate: S, size: S, level: S) -> (result: S)
    requires
        farthest_shift(size, level).at_most(S::whole(0)),
    ensures
        result == centering(coordinate, size, level),
{
    let shift = size.div(S::from_int(2)).sub(coordinate.mul(level));
    let rest = S::from_int(1).sub(level);
    clamp(shift, size.mul(rest), S::from_int(0)).div(rest)
}

/// The zoom level that is taken when `level` is asked for.
pub open spec fn allowed_level<A: Arith>(level: A) -> A {
    clamped(level, A::whole(1), A::whole(MAX_ZOOM))
}

fn allow_level<S: Scalar>(level: S) -> (result: S)
    ensures
        result == allowed_level(level),
{
    let low = S::from_int(1);
    let high = S::from_int(MAX_ZOOM);
    if level.lt(low) {
        low
    } else if high.lt(level) {
        high
    } else {
        level
    }
}

/// The scale of the overlay's contents at a zoom level.
pub open spec fn overlay_scale_of<A: Arith>(level: A) -> A {
    level.lesser(A::whole(MAX_OVERLAY_SCALE))
}

/// The zoom level to two decimal places.
pub open spec fn quantized<S: Scalar>(level: S) -> S {
    level.times(S::whole(100)).nearest().over(S::whole(100))
}

/// The scale of the overlay's contents at a zoom level.
pub fn overlay_scale<S: Scalar>(level: S) -> (result: S)
    ensures
        result == overlay_scale_of(level),
{
    level.min(S::from_int(MAX_OVERLAY_SCALE))
}

fn quantized_scale<S: Scalar>(level: S) -> (result: S)
    ensures
        result == overlay_scale_of(quantized(level)),
{
    let hundred = S::from_int(100);
    overlay_scale(level.mul(hundred).round().div(hundred))
}

/// The size of a new overlay: somewhat wider than `minimum`, and no wider than the output.
pub open spec fn overlay_extent(minimum: Size<i32, Local>, output: Output) -> Size<i32, Local> {
    extent(
        if minimum.w + OVERLAY_EXTRA_WIDTH < output.size.w {
            (minimum.w + OVERLAY_EXTRA_WIDTH) as i32
        } else {
            output.size.w
        },
        minimum.h,
    )
}

/// The size of a new overlay: somewhat wider than `minimum`, and no wider than the output.
pub fn overlay_size(minimum: Size<i32, Local>, output: &Output) -> (result: Size<i32, Local>)
    requires
        minimum.w + OVERLAY_EXTRA_WIDTH <= i32::MAX,
    ensures
        result == overlay_extent(minimum, *output),
        result.w == (if minimum.w + OVERLAY_EXTRA_WIDTH < output.size.w {
            minimum.w + OVERLAY_EXTRA_WIDTH
        } else {
            output.size.w as int
        }),
        result.h == minimum.h,
{
    let wide: i32 = minimum.w + OVERLAY_EXTRA_WIDTH;
    Size::new(
        if wide < output.size.w {
            wide
        } else {
            output.size.w
        },
        minimum.h,
    )
}

impl<A: Arith> OutputZoomState<A> {
    /// The state of an output that is to be shown at `level`.
    pub open spec fn started(config: ZoomConfig, level: A, animation_duration: u64) -> Self {
        OutputZoomState {
            level,
            movement: config.view_moves,
            pointer_position: point(A::whole(0), A::whole(0)),
            previous_level: None,
            focal_point: point(A::whole(0), A::whole(0)),
            previous_point: None,
            show_overlay: config.show_overlay,
            animation_duration,
        }
    }

    /// The zoom level that is shown at `now`.
    pub open spec fn level_at(self, now: u64) -> A {
        match self.previous_level {
            Some((old_level, start)) => A::eased(
                old_level,
                self.level,
                millis(passed(start, now)),
                millis(self.animation_duration),
            ),
            None => self.level,
        }
    }

    /// Whether an animation is still recorded.
    pub open spec fn animating(self) -> bool {
        self.previous_point is Some || self.previous_level is Some
    }

    /// The part of the global space that fills the output at `now`.
    pub open spec fn global_view(self, area: Rectangle<A, Global>, output: Output, now: u64) -> Rectangle<
        A,
        Global,
    > {
        magnified(area, output.globalized(self.focal_point), self.level_at(now))
    }

    /// The part of an area, or else of the output, that fills it at the level that animations
    /// lead to.
    pub open spec fn part_shown(
        self,
        output: Output,
        area: Option<Rectangle<A, Local>>,
    ) -> Rectangle<A, Local> {
        match area {
            Some(area) => magnified(area, self.focal_point, self.level),
            None => magnified(output.local_area(), self.focal_point, self.level),
        }
    }

    /// The part of an area of the global space, or else of the output, that fills it at `now`.
    pub open spec fn global_part_shown(
        self,
        output: Output,
        area: Option<Rectangle<A, Global>>,
        now: u64,
    ) -> Rectangle<A, Global> {
        match area {
            Some(area) => self.global_view(area, output, now),
            None => self.global_view(output.global_area(), output, now),
        }
    }

    /// Where on the screen the global point `pos` is shown at `now`.
    pub open spec fn on_screen(self, pos: Point<A, Global>, output: Output, now: u64) -> Point<A, Local> {
        let view = self.global_view(output.global_area(), output, now);
        point::<A, Local>(pos.x.minus(view.loc.x), pos.y.minus(view.loc.y)).upscaled(
            self.level_at(now),
        )
    }

    /// The global point that is shown at the point `p` of the screen at `now`.
    pub open spec fn shown_at(self, p: Point<A, Local>, output: Output, now: u64) -> Point<A, Global> {
        let view = self.global_view(output.global_area(), output, now);
        let scaled = p.downscaled(self.level_at(now));
        point::<A, Global>(scaled.x, scaled.y).plus(view.loc)
    }

    /// Where an overlay is reported to lie so that the pointer at `pos`, whose motions are
    /// magnified while the overlay is not, hits it in the right place.
    pub open spec fn overlay_origin(
        self,
        overlay: Rectangle<A, Local>,
        output: Output,
        pos: Point<A, Global>,
        now: u64,
    ) -> Point<A, Global> {
        let origin = self.shown_at(overlay.loc, output, now);
        origin.minus(pos.minus(origin).upscaled(self.level.minus(A::whole(1))))
    }

    /// Where the overlay is reported to lie if the global point `pos` is shown on it at `now`.
    pub open spec fn overlay_under(
        self,
        output: Output,
        overlay_size: Size<i32, Local>,
        pos: Point<A, Global>,
        now: u64,
    ) -> Option<Point<A, Global>> {
        let overlay = overlay_area::<A>(output, overlay_size);
        if overlay.holds(self.on_screen(pos, output, now)) {
            Some(self.overlay_origin(overlay, output, pos, now))
        } else {
            None
        }
    }

    /// The focal point that the movement and the pointer call for at `now`.
    pub open spec fn focus_at(self, output: Output, now: u64) -> Point<A, Local> {
        let area = output.local_area::<A>();
        match self.movement {
            ZoomMovement::Continuously => self.pointer_position,
            ZoomMovement::OnEdge => {
                let calm = calm_area(magnified(area, self.focal_point, self.level));
                let pointer = self.pointer_position;
                if calm.holds(pointer) {
                    self.focal_point
                } else {
                    let dx = overshoot(pointer.x, calm.loc.x, calm.right());
                    let dy = overshoot(pointer.y, calm.loc.y, calm.bottom());
                    point(
                        clamped(
                            self.focal_point.x.plus(dx),
                            area.loc.x,
                            last(area.loc.x, area.size.w),
                        ),
                        clamped(
                            self.focal_point.y.plus(dy),
                            area.loc.y,
                            last(area.loc.y, area.size.h),
                        ),
                    )
                }
            },
            ZoomMovement::Centered => point(
                centering(self.pointer_position.x, area.size.w, self.level_at(now)),
                centering(self.pointer_position.y, area.size.h, self.level_at(now)),
            ),
        }
    }

    /// Whether the output is large enough, and the level high enough, for the focal point to
    /// be held within bounds that are in order.
    pub open spec fn focusable(self, output: Output, now: u64) -> bool {
        let area = output.local_area::<A>();
        match self.movement {
            ZoomMovement::Continuously => true,
            ZoomMovement::OnEdge => {
                ||| calm_area(magnified(area, self.focal_point, self.level)).holds(
                    self.pointer_position,
                )
                ||| area.loc.x.at_most(last(area.loc.x, area.size.w)) && area.loc.y.at_most(
                    last(area.loc.y, area.size.h),
                )
            },
            ZoomMovement::Centered => {
                &&& farthest_shift(area.size.w, self.level_at(now)).at_most(A::whole(0))
                &&& farthest_shift(area.size.h, self.level_at(now)).at_most(A::whole(0))
            },
        }
    }

    /// This state with the focal point that is called for at `now`.
    pub open spec fn refocused(self, output: Output, now: u64) -> Self {
        OutputZoomState { focal_point: self.focus_at(output, now), ..self }
    }

    /// Whether the recorded animation of the focal point goes on at `now`.
    pub open spec fn point_moving(self, now: u64) -> bool {
        self.previous_point matches Some((_, start)) && passed(start, now)
            <= self.animation_duration
    }

    /// This state once the focal point has been shown at `now`: while an animation is recorded
    /// the focal point has followed the pointer, and the record of one that is over is gone.
    pub open spec fn advanced(self, output: Output, now: u64) -> Self {
        OutputZoomState {
            focal_point: if self.animating() {
                self.focus_at(output, now)
            } else {
                self.focal_point
            },
            previous_point: if self.point_moving(now) {
                self.previous_point
            } else {
                None
            },
            ..self
        }
    }

    /// The focal point that is shown at `now`.
    pub open spec fn focus_shown(self, output: Output, now: u64) -> Point<A, Local> {
        let target = self.advanced(output, now).focal_point;
        match self.previous_point {
            Some((old_point, start)) if self.point_moving(now) => Point::eased(
                old_point,
                target,
                millis(passed(start, now)),
                millis(self.animation_duration),
            ),
            _ => target,
        }
    }

    /// Whether the recorded animation of the level goes on at `now`.
    pub open spec fn level_moving(self, now: u64) -> bool {
        self.previous_level matches Some((_, start)) && passed(start, now)
            <= self.animation_duration
    }

    /// This state without the record of an animation of the level that is over at `now`.
    pub open spec fn settled(self, now: u64) -> Self {
        OutputZoomState {
            previous_level: if self.level_moving(now) {
                self.previous_level
            } else {
                None
            },
            ..self
        }
    }

    /// This state with the pointer and the focal point at `position`.
    pub open spec fn aimed(self, position: Point<A, Local>) -> Self {
        OutputZoomState { pointer_position: position, focal_point: position, ..self }
    }

    /// Whether the output is not magnified, or will not be once no animation runs any more.
    pub open spec fn at_rest_level(self) -> bool {
        self.level.same(A::whole(1))
    }

    /// Whether the output is not magnified and no animation of the level is recorded.
    pub open spec fn at_rest(self) -> bool {
        self.at_rest_level() && self.previous_level is None
    }

    /// This state with the pointer at `position`; where nothing is magnified yet, the focal
    /// point is taken from there.
    pub open spec fn pointed(self, output: Output, position: Point<A, Local>, now: u64) -> Self {
        if self.at_rest_level() {
            self.aimed(position).refocused(output, now)
        } else {
            OutputZoomState { pointer_position: position, ..self }
        }
    }

    /// This state with the level that is taken for `level`, before the focal point follows,
    /// and with the animations that lead there.
    pub open spec fn leveled(
        self,
        output: Output,
        position: Point<A, Local>,
        level: A,
        animate: bool,
        now: u64,
    ) -> Self {
        let start = self.pointed(output, position, now);
        OutputZoomState {
            level: allowed_level(level),
            previous_level: if animate {
                Some((start.level_at(now), now))
            } else {
                start.previous_level
            },
            previous_point: if animate && self.movement == ZoomMovement::OnEdge {
                Some((start.focal_point, now))
            } else {
                start.previous_point
            },
            ..start
        }
    }

    /// This state once the pointer has moved to `position`: the focal point has followed it,
    /// unless it was there already.
    pub open spec fn moved(self, output: Output, position: Point<A, Local>, now: u64) -> Self {
        if position.same(self.pointer_position) {
            self
        } else {
            (OutputZoomState { pointer_position: position, ..self }).refocused(output, now)
        }
    }

    /// This state under other settings. A new movement starts an animation from the present
    /// focal point.
    pub open spec fn reconfigured(self, output: Output, config: ZoomConfig, now: u64) -> Self {
        let shown = OutputZoomState { show_overlay: config.show_overlay, ..self };
        if config.view_moves == self.movement {
            shown
        } else {
            (OutputZoomState {
                movement: config.view_moves,
                previous_point: Some((self.focal_point, now)),
                ..shown
            }).refocused(output, now)
        }
    }

    /// This state once `level` was asked for with the pointer at `position`.
    pub open spec fn zoomed_to(
        self,
        output: Output,
        position: Point<A, Local>,
        level: A,
        animate: bool,
        now: u64,
    ) -> Self {
        if level.same(self.level) {
            OutputZoomState { pointer_position: position, ..self }
        } else {
            self.leveled(output, position, level, animate, now).refocused(output, now)
        }
    }

    /// The message that shows the state under settings.
    pub open spec fn reported(self, config: ZoomConfig) -> ZoomMessage<A> {
        ZoomMessage::Update {
            level: self.level,
            increment: config.increment,
            movement: config.view_moves,
        }
    }

    /// Whether the focal point can be set wherever a change to `level` sets it.
    pub open spec fn levelable(
        self,
        output: Output,
        position: Point<A, Local>,
        level: A,
        animate: bool,
        now: u64,
    ) -> bool {
        ||| level.same(self.level)
        ||| {
            &&& self.at_rest_level() ==> self.aimed(position).focusable(output, now)
            &&& self.leveled(output, position, level, animate, now).focusable(output, now)
        }
    }
}

/// The area of an overlay of that size: centred on the width of the output and on its lower
/// half.
pub open spec fn overlay_area<A: Arith>(output: Output, size: Size<i32, Local>) -> Rectangle<
    A,
    Local,
> {
    let area = output.local_area::<A>();
    let w = A::whole(size.w as i64);
    let h = A::whole(size.h as i64);
    Rectangle {
        loc: point(
            area.size.w.over(A::whole(2)).minus(w.over(A::whole(2))),
            area.size.h.over(A::whole(4)).times(A::whole(3)).minus(h.over(A::whole(2))),
        ),
        size: extent(w, h),
    }
}

/// The pixel at which an overlay of that size is drawn on an output with that scale.
pub open spec fn drawn_at<S: Scalar>(output: Output, size: Size<i32, Local>, scale: S) -> Point<
    i32,
    Physical,
> {
    let loc = overlay_area::<S>(output, size).loc.upscaled(scale);
    point(loc.x.nearest().integer(), loc.y.nearest().integer())
}

impl<S: Scalar> OutputZoomState<S> {
    /// What a change to `level` asks of the overlay.
    pub open spec fn change_to(self, level: S, animate: bool, increment: u32) -> Option<
        LevelChange<S>,
    > {
        if level.same(self.level) {
            None
        } else {
            Some(
                LevelChange {
                    scale: if self.show_overlay && !animate {
                        Some(overlay_scale_of(quantized(allowed_level(level))))
                    } else {
                        None
                    },
                    follow: self.show_overlay && animate,
                    message: ZoomMessage::Update {
                        level: allowed_level(level),
                        increment,
                        movement: self.movement,
                    },
                },
            )
        }
    }

    /// The scale to draw the overlay at while it follows an animation.
    pub open spec fn followed(self, now: u64) -> Option<S> {
        if self.animating() {
            Some(overlay_scale_of(quantized(self.level_at(now))))
        } else {
            None
        }
    }

    /// The state of an output that is to be shown at `level`.
    pub fn new(config: &ZoomConfig, level: S, animation_duration: u64) -> (result: Self)
        ensures
            result == Self::started(*config, level, animation_duration),
            result == (OutputZoomState {
                level,
                movement: config.view_moves,
                pointer_position: point(S::whole(0), S::whole(0)),
                previous_level: None,
                focal_point: point(S::whole(0), S::whole(0)),
                previous_point: None,
                show_overlay: config.show_overlay,
                animation_duration,
            }),
    {
        let focal_point: Point<S, Local> = Point::new(S::from_int(0), S::from_int(0));
        OutputZoomState {
            level,
            movement: config.view_moves,
            pointer_position: focal_point,
            previous_level: None,
            focal_point,
            previous_point: None,
            show_overlay: config.show_overlay,
            animation_duration,
        }
    }

    /// Where on the screen the global point `pos` is shown.
    pub fn global_pos_to_screen_space(
        &self,
        pos: Point<S, Global>,
        output: &Output,
        now: u64,
    ) -> (result: Point<S, Local>)
        ensures
            result == self.on_screen(pos, *output, now),
    {
        let view = self.zoomed_geometry_global(output, None, now);
        let relative: Point<S, Local> = Point::new(pos.x.sub(view.loc.x), pos.y.sub(view.loc.y));
        relative.upscale(self.animating_level(now))
    }

    /// Moves the pointer, and the magnified area with it.
    pub fn update_pointer_position(&mut self, output: &Output, position: Point<S, Local>, now: u64)
        requires
            position.same(old(self).pointer_position) || (OutputZoomState {
                pointer_position: position,
                ..*old(self)
            }).focusable(*output, now),
        ensures
            *final(self) == old(self).moved(*output, position, now),
            *final(self) == (if position.same(old(self).pointer_position) {
                *old(self)
            } else {
                (OutputZoomState { pointer_position: position, ..*old(self) }).refocused(
                    *output,
                    now,
                )
            }),
    {
        if position.eq(self.pointer_position) {
            return ;
        }
        self.pointer_position = position;
        self.update_focal_point(output, now);
    }

    /// Takes over changed settings and returns the message that shows them. A new movement
    /// starts an animation from the present focal point.
    pub fn update_config(&mut self, output: &Output, config: &ZoomConfig, now: u64) -> (result:
        ZoomMessage<S>)
        requires
            config.view_moves != old(self).movement ==> (OutputZoomState {
                movement: config.view_moves,
                ..*old(self)
            }).focusable(*output, now),
        ensures
            *final(self) == old(self).reconfigured(*output, *config, now),
            result == old(self).reported(*config),
            final(self).show_overlay == config.show_overlay,
            config.view_moves == old(self).movement ==> *final(self) == (OutputZoomState {
                show_overlay: config.show_overlay,
                ..*old(self)
            }),
            config.view_moves != old(self).movement ==> *final(self) == (OutputZoomState {
                movement: config.view_moves,
                previous_point: Some((old(self).focal_point, now)),
                show_overlay: config.show_overlay,
                ..*old(self)
            }).refocused(*output, now),
            result == (ZoomMessage::Update {
                level: old(self).level,
                increment: config.increment,
                movement: config.view_moves,
            }),
    {
        if config.view_moves != self.movement {
            self.movement = config.view_moves;
            self.previous_point = Some((self.focal_point, now));
            self.update_focal_point(output, now);
        }
        self.show_overlay = config.show_overlay;
        ZoomMessage::Update {
            level: self.level,
            increment: config.increment,
            movement: config.view_moves,
        }
    }

    /// The area of the overlay on the screen, given its present size.
    pub fn overlay_rect(&self, output: &Output, size: Size<i32, Local>) -> (result: Rectangle<
        S,
        Local,
    >)
        ensures
            result == overlay_area::<S>(*output, size),
    {
        let area: Rectangle<S, Local> = output.local_geometry();
        let w = S::from_int(size.w as i64);
        let h = S::from_int(size.h as i64);
        let two = S::from_int(2);
        Rectangle::new(
            Point::new(
                area.size.w.div(two).sub(w.div(two)),
                area.size.h.div(S::from_int(4)).mul(S::from_int(3)).sub(h.div(two)),
            ),
            Size::new(w, h),
        )
    }

    /// Where the overlay is to be reported to lie, if the global point `pos` is shown on it.
    pub fn surface_under(
        &self,
        output: &Output,
        overlay_size: Size<i32, Local>,
        pos: Point<S, Global>,
        now: u64,
    ) -> (result: Option<Point<S, Global>>)
        ensures
            result == self.overlay_under(*output, overlay_size, pos, now),
    {
        let view = self.zoomed_geometry_global(output, None, now);
        let local_pos = self.global_pos_to_screen_space(pos, output, now);
        let rect = self.overlay_rect(output, overlay_size);
        if !rect.contains(local_pos) {
            return None;
        }
        let scaled = rect.loc.downscale(self.animating_level(now));
        let origin = Point::<S, Global>::new(scaled.x, scaled.y).add(view.loc);
        // The distance from the reported location to the pointer is taken in the magnified
        // space, while the overlay is not magnified: the location makes up for the difference.
        let difference = pos.sub(origin).upscale(self.level.sub(S::from_int(1)));
        Some(origin.sub(difference))
    }

    /// The part of the output that fills it at the level that animations lead to.
    pub fn zoomed_geometry(
        &self,
        output: &Output,
        output_geometry: Option<Rectangle<S, Local>>,
    ) -> (result: Rectangle<S, Local>)
        ensures
            result == self.part_shown(*output, output_geometry),
            result == magnified(
                match output_geometry {
                    Some(area) => area,
                    None => output.local_area::<S>(),
                },
                self.focal_point,
                self.level,
            ),
    {
        let area = match output_geometry {
            Some(area) => area,
            None => output.local_geometry(),
        };
        magnify(area, self.focal_point, self.level)
    }

    /// The part of the global space that fills the output at `now`.
    pub fn zoomed_geometry_global(
        &self,
        output: &Output,
        output_geometry: Option<Rectangle<S, Global>>,
        now: u64,
    ) -> (result: Rectangle<S, Global>)
        ensures
            result == self.global_part_shown(*output, output_geometry, now),
            result == self.global_view(
                match output_geometry {
                    Some(area) => area,
                    None => output.global_area::<S>(),
                },
                *output,
                now,
            ),
    {
        let area = match output_geometry {
            Some(area) => area,
            None => output.geometry(),
        };
        magnify(area, output.to_global(self.focal_point), self.animating_level(now))
    }

    /// Whether [`update_focal_point`](Self::update_focal_point) can be called.
    pub fn can_update_focal_point(&self, output: &Output, now: u64) -> (result: bool)
        ensures
            result == self.focusable(*output, now),
    {
        let area: Rectangle<S, Local> = output.local_geometry();
        match self.movement {
            ZoomMovement::Continuously => true,
            ZoomMovement::OnEdge => {
                let one = S::from_int(1);
                self.calm_geometry(output, area).contains(self.pointer_position) || (area.loc.x.le(
                    area.loc.x.add(area.size.w).sub(one),
                ) && area.loc.y.le(area.loc.y.add(area.size.h).sub(one)))
            },
            ZoomMovement::Centered => {
                let rest = S::from_int(1).sub(self.animating_level(now));
                area.size.w.mul(rest).le(S::from_int(0)) && area.size.h.mul(rest).le(
                    S::from_int(0),
                )
            },
        }
    }

    fn calm_geometry(&self, output: &Output, area: Rectangle<S, Local>) -> (result: Rectangle<
        S,
        Local,
    >)
        ensures
            result == calm_area(magnified(area, self.focal_point, self.level)),
    {
        let zoomed = self.zoomed_geometry(output, Some(area));
        zoomed.shrink(zoomed.size.h.mul(S::from_int(2).div(S::from_int(100))))
    }

    /// Moves the focal point to where the movement and the pointer call for it.
    pub fn update_focal_point(&mut self, output: &Output, now: u64)
        requires
            old(self).focusable(*output, now),
        ensures
            *final(self) == old(self).refocused(*output, now),
    {
        let area: Rectangle<S, Local> = output.local_geometry();
        let pointer = self.pointer_position;
        match self.movement {
            ZoomMovement::Continuously => {
                self.focal_point = pointer;
            },
            ZoomMovement::OnEdge => {
                let calm = self.calm_geometry(output, area);
                if calm.contains(pointer) {
                    return ;
                }
                let dx = measure_overshoot(pointer.x, calm.loc.x, calm.loc.x.add(calm.size.w));
                let dy = measure_overshoot(pointer.y, calm.loc.y, calm.loc.y.add(calm.size.h));
                let one = S::from_int(1);
                self.focal_point = Point::new(
                    clamp(
                        self.focal_point.x.add(dx),
                        area.loc.x,
                        area.loc.x.add(area.size.w).sub(one),
                    ),
                    clamp(
                        self.focal_point.y.add(dy),
                        area.loc.y,
                        area.loc.y.add(area.size.h).sub(one),
                    ),
                );
            },
            ZoomMovement::Centered => {
                let level = self.animating_level(now);
                self.focal_point = Point::new(
                    center(pointer.x, area.size.w, level),
                    center(pointer.y, area.size.h, level),
                );
            },
        }
    }

    /// The focal point that is shown at `now`. While an animation is recorded the focal point
    /// first follows the pointer; the record of one that is over is dropped.
    pub fn animating_focal_point(&mut self, output: &Output, now: u64) -> (result: Point<S, Local>)
        requires
            old(self).animating() ==> old(self).focusable(*output, now),
        ensures
            *final(self) == old(self).advanced(*output, now),
            result == old(self).focus_shown(*output, now),
    {
        if self.is_animating() {
            self.update_focal_point(output, now);
        }
        match self.previous_point {
            Some((old_point, start)) => {
                let elapsed = time_passed(start, now);
                if elapsed > self.animation_duration {
                    self.previous_point = None;
                    return self.focal_point;
                }
                Point::ease(
                    old_point,
                    self.focal_point,
                    elapsed / 1_000_000,
                    self.animation_duration / 1_000_000,
                )
            },
            None => self.focal_point,
        }
    }

    /// The level that is shown once no animation runs any more.
    pub fn target_level(&self) -> (result: S)
        ensures
            result == self.level,
    {
        self.level
    }

    /// The level that is shown at `now`.
    pub fn animating_level(&self, now: u64) -> (result: S)
        ensures
            result == self.level_at(now),
    {
        match self.previous_level {
            Some((old_level, start)) => S::ease(
                old_level,
                self.level,
                time_passed(start, now) / 1_000_000,
                self.animation_duration / 1_000_000,
            ),
            None => self.level,
        }
    }

    /// Whether an animation is recorded.
    pub fn is_animating(&self) -> (result: bool)
        ensures
            result == self.animating(),
    {
        self.previous_point.is_some() || self.previous_level.is_some()
    }

    /// Drops the record of an animation of the level that is over, and returns whether the
    /// output is not magnified any more.
    pub fn refresh(&mut self, now: u64) -> (result: bool)
        ensures
            *final(self) == old(self).settled(now),
            result == final(self).at_rest(),
    {
        if let Some((_, start)) = self.previous_level {
            if time_passed(start, now) > self.animation_duration {
                self.previous_level = None;
            }
        }
        self.level.eq(S::from_int(1)) && self.previous_level.is_none()
    }

    fn set_level(
        &mut self,
        output: &Output,
        position: Point<S, Local>,
        level: S,
        animate: bool,
        now: u64,
    )
        requires
            old(self).at_rest_level() ==> old(self).aimed(position).focusable(*output, now),
        ensures
            *final(self) == old(self).leveled(*output, position, level, animate, now),
    {
        self.pointer_position = position;
        if self.level.eq(S::from_int(1)) {
            self.focal_point = position;
            self.update_focal_point(output, now);
        }
        if animate {
            self.previous_level = Some((self.animating_level(now), now));
            if self.movement == ZoomMovement::OnEdge {
                self.previous_point = Some((self.focal_point, now));
            }
        }
        self.level = allow_level(level);
    }

    /// Whether [`update_level`](Self::update_level) can be called.
    pub fn can_update_level(
        &self,
        output: &Output,
        pointer_position: Point<S, Local>,
        level: S,
        animate: bool,
        now: u64,
    ) -> (result: bool)
        ensures
            result == self.levelable(*output, pointer_position, level, animate, now),
    {
        if level.eq(self.level) {
            return true;
        }
        let mut next = *self;
        if self.level.eq(S::from_int(1)) {
            next.pointer_position = pointer_position;
            next.focal_point = pointer_position;
            if !next.can_update_focal_point(output, now) {
                return false;
            }
            next = *self;
        }
        next.set_level(output, pointer_position, level, animate, now);
        next.can_update_focal_point(output, now)
    }

    /// Moves the pointer and changes the zoom level, at once or by an animation, and returns
    /// what the overlay has to do about it: nothing, if the level is the present one.
    pub fn update_level(
        &mut self,
        output: &Output,
        pointer_position: Point<S, Local>,
        level: S,
        animate: bool,
        increment: u32,
        now: u64,
    ) -> (result: Option<LevelChange<S>>)
        requires
            old(self).levelable(*output, pointer_position, level, animate, now),
        ensures
            *final(self) == old(self).zoomed_to(*output, pointer_position, level, animate, now),
            result == old(self).change_to(level, animate, increment),
            level.same(old(self).level) ==> {
                &&& *final(self) == (OutputZoomState { pointer_position, ..*old(self) })
                &&& result is None
            },
            !level.same(old(self).level) ==> {
                &&& *final(self) == old(self).leveled(
                    *output,
                    pointer_position,
                    level,
                    animate,
                    now,
                ).refocused(*output, now)
                &&& result == Some(
                    LevelChange {
                        scale: if old(self).show_overlay && !animate {
                            Some(overlay_scale_of(quantized(allowed_level(level))))
                        } else {
                            None
                        },
                        follow: old(self).show_overlay && animate,
                        message: ZoomMessage::Update {
                            level: allowed_level(level),
                            increment,
                            movement: old(self).movement,
                        },
                    },
                )
            },
    {
        if level.eq(self.level) {
            self.pointer_position = pointer_position;
            return None;
        }
        self.set_level(output, pointer_position, level, animate, now);
        self.update_focal_point(output, now);
        Some(
            LevelChange {
                scale: if self.show_overlay && !animate {
                    Some(quantized_scale(self.level))
                } else {
                    None
                },
                follow: self.show_overlay && animate,
                message: ZoomMessage::Update {
                    level: self.level,
                    increment,
                    movement: self.movement,
                },
            },
        )
    }

    /// The scale to draw the overlay at while it follows an animation; `None` once none is
    /// recorded and it need not follow any more.
    pub fn follow_animation(&self, now: u64) -> (result: Option<S>)
        ensures
            result == self.followed(now),
            result == (if self.animating() {
                Some(overlay_scale_of(quantized(self.level_at(now))))
            } else {
                None
            }),
    {
        if self.is_animating() {
            Some(quantized_scale(self.animating_level(now)))
        } else {
            None
        }
    }

    /// The pixel at which the overlay is drawn on an output with that scale.
    pub fn render_location(&self, output: &Output, overlay_size: Size<i32, Local>, scale: S) -> (result:
        Point<i32, Physical>)
        ensures
            result == drawn_at(*output, overlay_size, scale),
            ({
                let loc = overlay_area::<S>(*output, overlay_size).loc.upscaled(scale);
                result == point::<i32, Physical>(
                    loc.x.nearest().integer(),
                    loc.y.nearest().integer(),
                )
            }),
    {
        let loc = self.overlay_rect(output, overlay_size).loc.upscale(scale).to_i32_round();
        Point::new(loc.x, loc.y)
    }
}

} // verus!
