//! Windows as the layout engine sees them: an identity, a surface, a rectangle and an
//! activation flag.

use vstd::prelude::*;
use crate::geometry::Rect;

verus! {

/// Identity of a window; two windows are the same window exactly when their ids are equal.
#[derive(Clone, Copy, Debug, PartialEq, Eq, Hash, Structural)]
pub struct WindowId(pub u64);

/// Identity of a client surface, be it the toplevel surface of a window or a layer surface.
#[derive(Clone, Copy, Debug, PartialEq, Eq, Hash, Structural)]
pub struct SurfaceId(pub u64);

/// A mapped window.
#[derive(Clone, Copy, Debug, PartialEq, Eq, Structural)]
pub struct Window {
    pub id: WindowId,
    /// Toplevel surface through which input events name this window.
    pub surface: SurfaceId,
    /// Where the window is placed and how large it is.
    pub rec: Rect,
    pub activated: bool,
}

impl Window {
    /// A window that is not yet placed: zero rectangle, not activated.
    pub fn new(id: WindowId, surface: SurfaceId) -> (w: Window)
        ensures
            w == (Window { id, surface, rec: Rect { x: 0, y: 0, w: 0, h: 0 }, activated: false }),
    {
        Window { id, surface, rec: Rect { x: 0, y: 0, w: 0, h: 0 }, activated: false }
    }
}

} // verus!
