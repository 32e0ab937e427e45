//! Interactive move and resize: sessions that start on a button press and turn every later
//! pointer motion into a change of the layout, until the button is released.

use vstd::prelude::*;
use crate::manager::WorkspaceManager;
use crate::window::{SurfaceId, Window, WindowId};
use crate::workspace::LayoutError;
use crate::zorder::{configures, find_id, mapped, placed, position, Configure};

verus! {

/// The coordinate nearest to `v` that is representable.
pub open spec fn clamped(v: int) -> i32 {
    if v < i32::MIN {
        i32::MIN
    } else if v > i32::MAX {
        i32::MAX
    } else {
        v as i32
    }
}

/// `origin` moved by the way from `from` to `to`, as far as coordinates reach.
pub open spec fn dragged(origin: (i32, i32), from: (i32, i32), to: (i32, i32)) -> (i32, i32) {
    (clamped(origin.0 + (to.0 - from.0)), clamped(origin.1 + (to.1 - from.1)))
}

/// The way from `from` to `to`, as far as coordinates reach.
pub open spec fn travelled(from: (i32, i32), to: (i32, i32)) -> (i32, i32) {
    (clamped(to.0 - from.0), clamped(to.1 - from.1))
}

fn clamp(v: i64) -> (r: i32)
    ensures
        r == clamped(v as int),
{
    if v < i32::MIN as i64 {
        i32::MIN
    } else if v > i32::MAX as i64 {
        i32::MAX
    } else {
        v as i32
    }
}

/// A move session: the window follows the pointer from where it was when the session
/// started.
#[derive(Clone, Copy, Debug)]
pub struct PointerMoveSurfaceGrab {
    pub window: WindowId,
    /// Where the pointer was when the session started.
    pub start: (i32, i32),
    pub initial_window_location: (i32, i32),
}

impl PointerMoveSurfaceGrab {
    /// One pointer motion of the session: the window goes to its first location moved by
    /// the way of the pointer since the start, on top of the list and activated. A window
    /// that has left the active workspace is not moved.
    pub fn motion(&self, manager: &mut WorkspaceManager, pointer: (i32, i32)) -> (r: bool)
        requires
            old(manager).wf(),
            old(manager).activated() is Some,
        ensures
            final(manager).wf(),
            final(manager).same_but_current(old(manager)),
            final(manager).current().same_but_windows(old(manager).current()),
            match position(old(manager).current().windows(), self.window) {
                Some(i) => r && final(manager).current().windows() == mapped(
                    old(manager).current().windows(),
                    old(manager).current().windows()[i],
                    dragged(self.initial_window_location, self.start, pointer),
                    true,
                ),
                None => !r && *final(manager) == *old(manager),
            },
    {
        proof {
            manager.lemma_invariant();
        }
        let found = find_id(manager.elements(), self.window);
        match found {
            Some(i) => {
                let window = manager.elements()[i];
                let x = clamp(self.initial_window_location.0 as i64 + (pointer.0 as i64 - self.start.0 as i64));
                let y = clamp(self.initial_window_location.1 as i64 + (pointer.1 as i64 - self.start.1 as i64));
                manager.map_element(window, (x, y), true);
                true
            },
            None => false,
        }
    }

    /// The end of the session, by release or by loss of the grab: every tiled window is
    /// back in the rectangle of its tile, and every client is told its rectangle.
    pub fn release(self, manager: &mut WorkspaceManager) -> (out: Vec<Configure>)
        requires
            old(manager).wf(),
            old(manager).activated() is Some,
        ensures
            final(manager).wf(),
            final(manager).same_but_current(old(manager)),
            final(manager).current().same_but_windows(old(manager).current()),
            final(manager).current().windows() == placed(
                old(manager).current().windows(),
                old(manager).current().tree(),
            ),
            out@ == configures(final(manager).current().windows(), false),
    {
        manager.send_pending_configure()
    }
}

/// A resize session: the boundary beside the tile of a window follows the pointer.
#[derive(Clone, Copy, Debug)]
pub struct ResizeSurfaceGrab {
    pub surface: SurfaceId,
    /// Where the pointer was at the last motion, or at the start.
    pub last: (i32, i32),
}

impl ResizeSurfaceGrab {
    pub fn start(window: &Window, pointer: (i32, i32)) -> (grab: ResizeSurfaceGrab)
        ensures
            grab == (ResizeSurfaceGrab { surface: window.surface, last: pointer }),
    {
        ResizeSurfaceGrab { surface: window.surface, last: pointer }
    }

    /// One pointer motion of the session: the active workspace takes a resize step by the
    /// way of the pointer since the last motion, and the session remembers the pointer.
    pub fn motion(
        &mut self,
        manager: &mut WorkspaceManager,
        pointer: (i32, i32),
    ) -> (r: Result<Vec<Configure>, LayoutError>)
        requires
            old(manager).wf(),
            old(manager).activated() is Some,
        ensures
            final(manager).wf(),
            final(manager).same_but_current(old(manager)),
            old(manager).current().resized(
                final(manager).current(),
                Some(old(self).surface),
                travelled(old(self).last, pointer),
                r,
            ),
            *final(self) == (ResizeSurfaceGrab { surface: old(self).surface, last: pointer }),
    {
        let dx = clamp(pointer.0 as i64 - self.last.0 as i64);
        let dy = clamp(pointer.1 as i64 - self.last.1 as i64);
        self.last = pointer;
        manager.resize(Some(self.surface), (dx, dy))
    }

    /// The end of the session, by release or by loss of the grab: every tiled window is in
    /// the rectangle of its tile, and every client is told its rectangle without the resize
    /// hint.
    pub fn release(self, manager: &mut WorkspaceManager) -> (out: Vec<Configure>)
        requires
            old(manager).wf(),
            old(manager).activated() is Some,
        ensures
            final(manager).wf(),
            final(manager).same_but_current(old(manager)),
            final(manager).current().same_but_windows(old(manager).current()),
            final(manager).current().windows() == placed(
                old(manager).current().windows(),
                old(manager).current().tree(),
            ),
            out@ == configures(final(manager).current().windows(), false),
    {
        manager.send_pending_configure()
    }
}

} // verus!
