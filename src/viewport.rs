//! Split-screen layout: the two player cameras share the window side by side.
use vstd::prelude::*;

verus! {

/// Which camera a view belongs to: the full-window overlay, or the left (`A`)
/// or right (`B`) player view.
#[derive(Clone, Copy, Debug, PartialEq, Eq, Structural)]
pub enum CameraType {
    Full,
    A,
    B,
}

/// A rectangle of the window, in physical pixels.
#[derive(Clone, Copy, Debug, PartialEq, Eq, Structural)]
pub struct Viewport {
    pub x: u32,
    pub y: u32,
    pub width: u32,
    pub height: u32,
}

/// The viewport of a player camera in a window of the given size: the left
/// half for `A`, the right half for `B`, which takes the odd column; the
/// full-window camera keeps no viewport of its own.
pub open spec fn split_spec(camera: CameraType, width: u32, height: u32) -> Option<Viewport> {
    let half = width / 2;
    match camera {
        CameraType::Full => None,
        CameraType::A => Some(Viewport { x: 0, y: 0, width: half as u32, height }),
        CameraType::B => Some(Viewport { x: half as u32, y: 0, width: (half + width % 2) as u32, height }),
    }
}

pub fn split_viewport(camera: CameraType, width: u32, height: u32) -> (r: Option<Viewport>)
    ensures
        r == split_spec(camera, width, height),
        r matches Some(v) ==> v.x + v.width <= width,
{
    let half = width / 2;
    match camera {
        CameraType::Full => None,
        CameraType::A => Some(Viewport { x: 0, y: 0, width: half, height }),
        CameraType::B => Some(Viewport { x: half, y: 0, width: half + width % 2, height }),
    }
}

} // verus!
