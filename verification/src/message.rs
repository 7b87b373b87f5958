//! The messages of the overlay's controls.
use crate::config::ZoomMovement;
use vstd::prelude::*;

verus! {

/// What the overlay is told: a control was pressed, or the state that it shows has changed.
#[derive(Debug, PartialEq)]
pub enum ZoomMessage<S> {
    /// Zoom out by one step.
    Decrease,
    /// Zoom in by one step.
    Increase,
    /// Open the menu of step widths.
    Increment,
    /// Open the menu of movements and settings.
    More,
    /// Hide the overlay.
    Close,
    /// The state to show from now on.
    Update { level: S, increment: u32, movement: ZoomMovement },
}

impl<S: Copy> Clone for ZoomMessage<S> {
    fn clone(&self) -> (result: Self)
        ensures
            result == *self,
    {
        *self
    }
}

impl<S: Copy> Copy for ZoomMessage<S> {

}

/// The entries of the menu of movements and settings.
#[derive(Clone, Copy, Debug, PartialEq, Eq, Structural)]
pub enum MenuMessage {
    ViewContinuously,
    ViewOnEdge,
    ViewCentered,
    OpenSettings,
}

} // verus!
