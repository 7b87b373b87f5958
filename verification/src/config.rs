//! What the user can configure about the magnifier.
use vstd::prelude::*;

verus! {

/// How the magnified area follows the pointer.
#[derive(Clone, Copy, Debug, PartialEq, Eq, Structural)]
pub enum ZoomMovement {
    /// The area moves with every motion of the pointer.
    Continuously,
    /// The area moves when the pointer reaches its edge.
    OnEdge,
    /// The pointer is kept in the middle of the area.
    Centered,
}

impl ZoomMovement {
    /// Every way to follow the pointer, in the order in which a menu lists them.
    pub fn all() -> (result: Vec<ZoomMovement>)
        ensures
            result@ == seq![
                ZoomMovement::Continuously,
                ZoomMovement::OnEdge,
                ZoomMovement::Centered,
            ],
    {
        vec![ZoomMovement::Continuously, ZoomMovement::OnEdge, ZoomMovement::Centered]
    }
}

/// The settings of the magnifier.
#[derive(Clone, Copy, Debug, PartialEq, Eq, Structural)]
pub struct ZoomConfig {
    /// Whether the controls are shown over a magnified output.
    pub show_overlay: bool,
    /// By how many percent one step changes the zoom level.
    pub increment: u32,
    /// How the magnified area follows the pointer.
    pub view_moves: ZoomMovement,
}

} // verus!
