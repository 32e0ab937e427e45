//! The focus router: for one pointer event it picks, by a fixed order of layers, the surface
//! that gets the keyboard focus, and raises and activates windows accordingly.

use vstd::prelude::*;
use crate::manager::WorkspaceManager;
use crate::window::{SurfaceId, Window};
use crate::zorder::{configures, hit, singled_out, with_activation, Configure};

verus! {

/// Role of a layer surface, from the one drawn on top of everything to the one drawn below
/// everything.
#[derive(Clone, Copy, Debug, PartialEq, Eq, Structural)]
pub enum Layer {
    Overlay,
    Top,
    Bottom,
    Background,
}

/// A surface and the location of its origin.
#[derive(Clone, Copy, Debug, PartialEq, Eq, Structural)]
pub struct SurfaceAt {
    pub surface: SurfaceId,
    pub x: i32,
    pub y: i32,
}

/// What the layer shell reports of the layer surface that lies under a point.
#[derive(Clone, Copy, Debug, PartialEq, Eq, Structural)]
pub struct LayerHit {
    /// Surface of the layer itself.
    pub surface: SurfaceId,
    /// Whether the layer takes the keyboard focus at all.
    pub focusable: bool,
    /// The surface of the layer that the point falls on, with its location, if it falls on
    /// one.
    pub under: Option<SurfaceAt>,
}

/// The layer surface under a point for each role, as far as there is one.
#[derive(Clone, Copy, Debug, PartialEq, Eq, Structural)]
pub struct LayerHits {
    pub overlay: Option<LayerHit>,
    pub top: Option<LayerHit>,
    pub bottom: Option<LayerHit>,
    pub background: Option<LayerHit>,
}

/// Where a pointer event was routed to.
#[derive(Clone, Copy, Debug, PartialEq, Eq, Structural)]
pub enum Target {
    /// A layer surface of this role lies under the point; nothing below it was looked at.
    Layer(Layer),
    /// The window with this surface is the topmost one under the point.
    Window(SurfaceId),
    /// Nothing lies under the point.
    Nothing,
}

/// The layer that a lookup among the layers above the windows ends at.
pub open spec fn upper(layers: LayerHits) -> Option<(Layer, LayerHit)> {
    match layers.overlay {
        Some(l) => Some((Layer::Overlay, l)),
        None => match layers.top {
            Some(l) => Some((Layer::Top, l)),
            None => None,
        },
    }
}

/// The layer that a lookup among the layers below the windows ends at.
pub open spec fn lower(layers: LayerHits) -> Option<(Layer, LayerHit)> {
    match layers.bottom {
        Some(l) => Some((Layer::Bottom, l)),
        None => match layers.background {
            Some(l) => Some((Layer::Background, l)),
            None => None,
        },
    }
}

/// The keyboard focus after a layer was hit: the layer's surface if the layer takes the
/// focus and the point falls on one of its surfaces, the old focus otherwise.
pub open spec fn layer_focus(l: LayerHit, before: Option<SurfaceId>) -> Option<SurfaceId> {
    if l.focusable && l.under is Some {
        Some(l.surface)
    } else {
        before
    }
}

/// Where a button press is routed to: the overlay layer, else the top layer, else the
/// topmost window, else the bottom layer, else the background layer, else nothing.
pub open spec fn button_target(layers: LayerHits, ws: Seq<Window>, px: int, py: int) -> Target {
    match upper(layers) {
        Some((role, _)) => Target::Layer(role),
        None => match hit(ws, px, py) {
            Some(i) => Target::Window(ws[i].surface),
            None => match lower(layers) {
                Some((role, _)) => Target::Layer(role),
                None => Target::Nothing,
            },
        },
    }
}

/// A layer above the windows that lies under the point is the target of a button press,
/// whatever windows lie under the point and in whatever order; the overlay layer comes
/// before the top layer.
pub proof fn lemma_layers_above_come_first(layers: LayerHits, ws: Seq<Window>, px: int, py: int)
    ensures
        layers.overlay is Some ==> button_target(layers, ws, px, py) == Target::Layer(Layer::Overlay),
        layers.overlay is None && layers.top is Some ==> button_target(layers, ws, px, py) == Target::Layer(
            Layer::Top,
        ),
        upper(layers) is None && hit(ws, px, py) is Some ==> button_target(layers, ws, px, py) is Window,
{
}

/// What a button press was routed to, and the messages that go out to clients.
pub struct Routed {
    pub target: Target,
    pub configures: Vec<Configure>,
}

/// An input event, as far as routing looks at it. Positions are in logical coordinates.
#[derive(Clone, Copy, Debug, PartialEq, Eq)]
pub enum InputEvent {
    /// The pointer moved to a position.
    PointerMotionAbsolute { position: (i32, i32) },
    /// A pointer button changed at the pointer's position; `grabbed` says whether a grab
    /// holds the pointer.
    PointerButton { pressed: bool, grabbed: bool, position: (i32, i32) },
    /// Any other event; routing leaves it alone.
    Other,
}

/// What routing made of an input event.
pub enum Handled {
    /// A motion: the surface under the pointer, and the messages for clients.
    Motion { under: Option<SurfaceAt>, configures: Vec<Configure> },
    /// A button press outside a grab.
    Press { routed: Routed },
    /// A button release, a button event during a grab, or another event.
    Nothing,
}

/// The state that input events act on: the workspaces and the keyboard focus.
pub struct NuonuoState {
    workspace_manager: WorkspaceManager,
    keyboard_focus: Option<SurfaceId>,
}

impl NuonuoState {
    /// The workspaces.
    pub closed spec fn manager(&self) -> WorkspaceManager {
        self.workspace_manager
    }

    /// The surface that has the keyboard focus.
    pub closed spec fn keyboard(&self) -> Option<SurfaceId> {
        self.keyboard_focus
    }

    /// The manager is sound and a workspace is active.
    pub open spec fn wf(&self) -> bool {
        self.manager().wf() && self.manager().activated() is Some
    }

    /// The windows of the active workspace.
    pub open spec fn windows(&self) -> Seq<Window> {
        self.manager().current().windows()
    }

    /// What a button press at `position` makes of this state: `post` and the answer `r`.
    pub open spec fn pressed(
        self,
        post: NuonuoState,
        position: (i32, i32),
        layers: LayerHits,
        r: Routed,
    ) -> bool {
        &&& r.target == button_target(layers, self.windows(), position.0 as int, position.1 as int)
        &&& post.manager().same_but_current(&self.manager())
        &&& post.manager().current().same_but_windows(self.manager().current())
        &&& match upper(layers) {
            Some((_, l)) => {
                &&& post.keyboard() == layer_focus(l, self.keyboard())
                &&& post.manager() == self.manager()
                &&& r.configures@ == Seq::<Configure>::empty()
            },
            None => match hit(self.windows(), position.0 as int, position.1 as int) {
                Some(i) => {
                    &&& post.keyboard() == Some(self.windows()[i].surface)
                    &&& post.windows() == singled_out(self.windows(), i)
                    &&& r.configures@ == configures(post.windows(), false)
                },
                None => match lower(layers) {
                    Some((_, l)) => {
                        &&& post.keyboard() == layer_focus(l, self.keyboard())
                        &&& post.manager() == self.manager()
                        &&& r.configures@ == Seq::<Configure>::empty()
                    },
                    None => {
                        &&& post.keyboard() is None
                        &&& post.windows() == with_activation(self.windows(), false)
                        &&& r.configures@ == configures(post.windows(), false)
                    },
                },
            },
        }
    }

    /// What a pointer motion to `position` makes of this state: `post`, the surface under
    /// the pointer and the messages for clients.
    pub open spec fn moved(
        self,
        post: NuonuoState,
        position: (i32, i32),
        layers: LayerHits,
        under: Option<SurfaceAt>,
        out: Seq<Configure>,
    ) -> bool {
        &&& post.manager().same_but_current(&self.manager())
        &&& post.manager().current().same_but_windows(self.manager().current())
        &&& match upper(layers) {
            Some((_, l)) => {
                &&& under == l.under
                &&& post == self
                &&& out == Seq::<Configure>::empty()
            },
            None => {
                &&& post.windows() == with_activation(self.windows(), false)
                &&& out == configures(post.windows(), false)
                &&& match hit(self.windows(), position.0 as int, position.1 as int) {
                    Some(i) => {
                        let w = self.windows()[i];
                        &&& under == Some(SurfaceAt { surface: w.surface, x: w.rec.x, y: w.rec.y })
                        &&& post.keyboard() == Some(w.surface)
                    },
                    None => under is None && post.keyboard() == self.keyboard(),
                }
            },
        }
    }

    pub fn new(workspace_manager: WorkspaceManager) -> (s: NuonuoState)
        ensures
            s.manager() == workspace_manager,
            s.keyboard() is None,
    {
        NuonuoState { workspace_manager, keyboard_focus: None }
    }

    pub fn workspace_manager(&self) -> (r: &WorkspaceManager)
        ensures
            *r == self.manager(),
    {
        &self.workspace_manager
    }

    /// The manager, to be changed in place.
    pub fn workspace_manager_mut(&mut self) -> (r: &mut WorkspaceManager)
        ensures
            *r == old(self).manager(),
            final(self).manager() == *final(r),
            final(self).keyboard() == old(self).keyboard(),
    {
        &mut self.workspace_manager
    }

    pub fn keyboard_focus(&self) -> (r: Option<SurfaceId>)
        ensures
            r == self.keyboard(),
    {
        self.keyboard_focus
    }

    /// Sets the activation flag of every window of the active workspace and tells every
    /// client.
    pub fn modify_all_windows_state(&mut self, activate: bool) -> (out: Vec<Configure>)
        requires
            old(self).wf(),
        ensures
            final(self).wf(),
            final(self).keyboard() == old(self).keyboard(),
            final(self).manager().same_but_current(&old(self).manager()),
            final(self).windows() == with_activation(old(self).windows(), activate),
            final(self).manager().current().same_but_windows(old(self).manager().current()),
            out@ == configures(final(self).windows(), false),
    {
        self.workspace_manager.set_all_activation(activate)
    }

    /// Routes a button press at `position`. A layer above the windows that lies under the
    /// point ends the search, whether it takes the focus or not. Else the topmost window
    /// under the point is raised and activated alone, and its surface gets the focus. Else a
    /// layer below the windows is treated like one above. Else the focus is cleared and no
    /// window stays activated.
    pub fn action_pointer_button(&mut self, position: (i32, i32), layers: &LayerHits) -> (r: Routed)
        requires
            old(self).wf(),
        ensures
            final(self).wf(),
            old(self).pressed(*final(self), position, *layers, r),
    {
        proof {
            self.workspace_manager.lemma_invariant();
        }
        let above = match layers.overlay {
            Some(l) => Some((Layer::Overlay, l)),
            None => match layers.top {
                Some(l) => Some((Layer::Top, l)),
                None => None,
            },
        };
        if let Some((role, layer)) = above {
            if layer.focusable && layer.under.is_some() {
                self.keyboard_focus = Some(layer.surface);
            }
            return Routed { target: Target::Layer(role), configures: Vec::new() };
        }
        if let Some((window, _)) = self.workspace_manager.element_under(position.0, position.1) {
            proof {
                let ws = self.windows();
                let i = hit(ws, position.0 as int, position.1 as int)->0;
                crate::zorder::lemma_position(ws, window.id);
                self.workspace_manager.current().lemma_invariant();
            }
            let configures = self.workspace_manager.single_out(&window);
            self.keyboard_focus = Some(window.surface);
            return Routed { target: Target::Window(window.surface), configures };
        }
        let below = match layers.bottom {
            Some(l) => Some((Layer::Bottom, l)),
            None => match layers.background {
                Some(l) => Some((Layer::Background, l)),
                None => None,
            },
        };
        if let Some((role, layer)) = below {
            if layer.focusable && layer.under.is_some() {
                self.keyboard_focus = Some(layer.surface);
            }
            return Routed { target: Target::Layer(role), configures: Vec::new() };
        }
        self.keyboard_focus = None;
        let configures = self.modify_all_windows_state(false);
        Routed { target: Target::Nothing, configures }
    }

    /// Finds the surface under the pointer at `position` for a pointer motion. A layer above
    /// the windows answers with the surface that the point falls on, and nothing changes.
    /// Else every window loses its activation; the topmost window under the point gets the
    /// keyboard focus and is the answer.
    pub fn surface_under(
        &mut self,
        position: (i32, i32),
        layers: &LayerHits,
    ) -> (r: (Option<SurfaceAt>, Vec<Configure>))
        requires
            old(self).wf(),
        ensures
            final(self).wf(),
            old(self).moved(*final(self), position, *layers, r.0, r.1@),
    {
        proof {
            self.workspace_manager.lemma_invariant();
        }
        let above = match layers.overlay {
            Some(l) => Some(l),
            None => layers.top,
        };
        if let Some(layer) = above {
            return (layer.under, Vec::new());
        }
        let under = self.workspace_manager.element_under(position.0, position.1);
        let configures = self.modify_all_windows_state(false);
        match under {
            Some((window, location)) => {
                self.keyboard_focus = Some(window.surface);
                (Some(SurfaceAt { surface: window.surface, x: location.0, y: location.1 }), configures)
            },
            None => (None, configures),
        }
    }

    /// Routes one input event: a motion looks up the surface under the pointer, a button
    /// press outside a grab is routed as by `action_pointer_button`, and everything else
    /// changes nothing.
    pub fn process_input_event(&mut self, event: InputEvent, layers: &LayerHits) -> (r: Handled)
        requires
            old(self).wf(),
        ensures
            final(self).wf(),
            match event {
                InputEvent::PointerMotionAbsolute { position } => r is Motion && old(self).moved(
                    *final(self),
                    position,
                    *layers,
                    r->under,
                    r->Motion_configures@,
                ),
                InputEvent::PointerButton { pressed, grabbed, position } => if pressed && !grabbed {
                    r is Press && old(self).pressed(*final(self), position, *layers, r->routed)
                } else {
                    r is Nothing && *final(self) == *old(self)
                },
                InputEvent::Other => r is Nothing && *final(self) == *old(self),
            },
    {
        match event {
            InputEvent::PointerMotionAbsolute { position } => {
                let (under, configures) = self.surface_under(position, layers);
                Handled::Motion { under, configures }
            },
            InputEvent::PointerButton { pressed, grabbed, position } => {
                if pressed && !grabbed {
                    Handled::Press { routed: self.action_pointer_button(position, layers) }
                } else {
                    Handled::Nothing
                }
            },
            InputEvent::Other => Handled::Nothing,
        }
    }
}

} // verus!
