//! The magnifier of a seat.
use crate::geometry::{Global, Local, Output, Point, Size};
use crate::output_zoom::OutputZoomState;
use crate::scalar::{Arith, Scalar};
use vstd::prelude::*;

verus! {

/// The magnifier while it is in use by a seat.
///
/// What it shows differs from output to output and is kept with each output; methods that
/// depend on it take the state of the output that they are about.
#[derive(Debug)]
pub struct ZoomState<T> {
    pub seat: T,
}

/// Whether the overlay is drawn over an output in that state.
pub open spec fn overlay_shown<A: Arith>(output_state: OutputZoomState<A>) -> bool {
    output_state.show_overlay && A::whole(1).below(output_state.level)
}

impl<T> ZoomState<T> {
    /// The magnifier for a seat.
    pub fn new(seat: T) -> (result: Self)
        ensures
            result.seat == seat,
    {
        ZoomState { seat }
    }

    /// The seat that the magnifier follows.
    pub fn seat(&self) -> (result: &T)
        ensures
            *result == self.seat,
    {
        &self.seat
    }

    /// Whether the overlay is drawn over an output.
    pub fn should_render_overlay<S: Scalar>(&self, output_state: &OutputZoomState<S>) -> (result:
        bool)
        ensures
            result == overlay_shown(*output_state),
    {
        output_state.show_overlay && S::from_int(1).lt(output_state.target_level())
    }

    /// The level that an output is shown at once no animation runs any more.
    pub fn target_level<S: Scalar>(&self, output_state: &OutputZoomState<S>) -> (result: S)
        ensures
            result == output_state.level,
    {
        output_state.target_level()
    }

    /// Where the overlay is to be reported to lie, if the global point `pos` is shown on it.
    pub fn surface_under<S: Scalar>(
        &self,
        output_state: &OutputZoomState<S>,
        output: &Output,
        overlay_size: Size<i32, Local>,
        pos: Point<S, Global>,
        now: u64,
    ) -> (result: Option<Point<S, Global>>)
        ensures
            result == output_state.overlay_under(*output, overlay_size, pos, now),
    {
        output_state.surface_under(output, overlay_size, pos, now)
    }

    /// The focal point and the level that an output shows at `now`.
    pub fn animating_focal_point_and_level<S: Scalar>(
        &self,
        output_state: &mut OutputZoomState<S>,
        output: &Output,
        now: u64,
    ) -> (result: (Point<S, Local>, S))
        requires
            old(output_state).animating() ==> old(output_state).focusable(*output, now),
        ensures
            result.1 == old(output_state).level_at(now),
            *final(output_state) == old(output_state).advanced(*output, now),
            result.0 == old(output_state).focus_shown(*output, now),
    {
        let focal_point = output_state.animating_focal_point(output, now);
        (focal_point, output_state.animating_level(now))
    }
}

impl<T: Clone> ZoomState<T> {
    /// The seat, and the level that an output is shown at once no animation runs any more.
    pub fn seat_and_target_level<S: Scalar>(&self, output_state: &OutputZoomState<S>) -> (result: (
        T,
        S,
    ))
        ensures
            cloned(self.seat, result.0),
            result.1 == output_state.level,
    {
        (self.seat.clone(), output_state.target_level())
    }

    /// A handle to the seat that the magnifier follows.
    pub fn current_seat(&self) -> (result: T)
        ensures
            cloned(self.seat, result),
    {
        self.seat.clone()
    }
}

} // verus!
