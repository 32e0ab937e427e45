//! A workspace: the windows of one output in z-order, the tiling tree that places the tiled
//! ones, and the window that has the focus.

use vstd::prelude::*;
use crate::geometry::{bounded, first_half, second_half, split_direction, Rect, GAP};
use crate::laws::{
    lemma_inverted, lemma_laid_out_tame, lemma_resized, lemma_tame_tile, lemma_with_split,
    lemma_with_split_tame, lemma_without_tame, lemma_without_windows,
};
use crate::node::NodeId;
use crate::tiled_tree::{LayoutScheme, TiledTree};
use crate::tree::Tree;
use crate::tree_lemmas::{
    lemma_counts, lemma_laid_out, lemma_laid_out_idempotent, lemma_nodes_dom,
};
use crate::window::{SurfaceId, Window, WindowId};
use crate::zorder::{
    activated_if, clear_others, configure_all, configure_of, configures, distinct_ids, find_id,
    find_surface, find_under, has_id, hit, lemma_only_active_ids, lemma_placed, lemma_placed_twice,
    lemma_position, lemma_push_ids, lemma_remove_ids, mapped, moved_to, place_one, placed, position,
    raise_at, raised, resolve, set_activation, singled_out, unmapped, with_activation, Configure,
};

verus! {

/// Most tiles that one workspace takes. With no more tiles than this, and an output within
/// `OUTPUT_BOUND`, every layout stays within the coordinate range.
pub const MAX_TILES: usize = 0x10_0000;

/// Largest width and height of an output, gap included, that a workspace lays out.
pub const OUTPUT_BOUND: i32 = 0x2000_0000;

/// Why a request to a workspace was turned down. The workspace is unchanged then.
#[derive(Clone, Copy, Debug, PartialEq, Eq, Structural)]
pub enum LayoutError {
    /// The window is not in the z-order list, or has no tile.
    NotFound,
    /// The workspace has no tiling tree.
    EmptyTree,
    /// The focused surface is missing or resolves to no window of the workspace.
    UnresolvedFocus,
}

/// Identity of a workspace.
#[derive(Clone, Copy, Debug, PartialEq, Eq, Hash, Structural)]
pub struct WorkspaceId(pub usize);

impl WorkspaceId {
    pub fn new(id: usize) -> (r: WorkspaceId)
        ensures
            r == WorkspaceId(id),
    {
        WorkspaceId(id)
    }

    /// Takes the next id from a counter: the id is the counter's value, and the counter
    /// moves on by one, starting over after the largest value.
    pub fn next(counter: &mut usize) -> (r: WorkspaceId)
        ensures
            r == WorkspaceId(*old(counter)),
            *old(counter) < usize::MAX ==> *final(counter) == *old(counter) + 1,
            *old(counter) == usize::MAX ==> *final(counter) == 0,
    {
        let id = *counter;
        *counter = if id == usize::MAX {
            0
        } else {
            id + 1
        };
        WorkspaceId(id)
    }
}

/// The output is small enough to be laid out: its width and height are within the bound.
pub open spec fn usable_output(output: Rect) -> bool {
    &&& GAP - OUTPUT_BOUND <= output.w <= OUTPUT_BOUND
    &&& GAP - OUTPUT_BOUND <= output.h <= OUTPUT_BOUND
}

/// The rectangle that the tiles of an output share: the area of the output's size at the
/// origin, less one gap on every side.
pub open spec fn outer_rect(output: Rect) -> Rect {
    Rect { x: GAP, y: GAP, w: (output.w - 2 * GAP) as i32, h: (output.h - 2 * GAP) as i32 }
}

/// Tests whether an output is small enough to be laid out.
pub fn is_usable_output(output: &Rect) -> (r: bool)
    ensures
        r == usable_output(*output),
{
    GAP - OUTPUT_BOUND <= output.w && output.w <= OUTPUT_BOUND && GAP - OUTPUT_BOUND <= output.h
        && output.h <= OUTPUT_BOUND
}

fn outer_of(output: &Rect) -> (r: Rect)
    requires
        usable_output(*output),
    ensures
        r == outer_rect(*output),
        bounded(r, OUTPUT_BOUND as int),
{
    Rect { x: GAP, y: GAP, w: output.w - 2 * GAP, h: output.h - 2 * GAP }
}

/// The windows of one output, from the bottom one to the top one, with the tree that tiles
/// them and the window that has the focus.
pub struct Workspace {
    id: WorkspaceId,
    output: Rect,
    windows: Vec<Window>,
    layout: LayoutScheme,
    layout_tree: Option<TiledTree>,
    tiles: usize,
    focus: Option<WindowId>,
}

/// The tree of a workspace places windows of the list only, within the workspace's bounds.
pub open spec fn tree_fits_list(t: Tree, ws: Seq<Window>) -> bool {
    &&& t.well_formed()
    &&& t.partitioned()
    &&& t.tame(OUTPUT_BOUND as int)
    &&& t.leaf_count() <= MAX_TILES
    &&& forall|w: WindowId| #[trigger] t.windows().contains(w) ==> has_id(ws, w)
}

/// A tree that fits a list fits every list with at least the same ids.
proof fn lemma_fits_wider_list(t: Tree, ws: Seq<Window>, ws2: Seq<Window>)
    requires
        tree_fits_list(t, ws),
        forall|id: WindowId| has_id(ws, id) ==> has_id(ws2, id),
    ensures
        tree_fits_list(t, ws2),
{
    assert forall|w: WindowId| #[trigger] t.windows().contains(w) implies has_id(ws2, w) by {
        assert(has_id(ws, w));
    }
}

impl Workspace {
    /// The windows from the bottom one to the top one.
    pub closed spec fn windows(&self) -> Seq<Window> {
        self.windows@
    }

    /// The tiling tree; `None` while no window is tiled.
    pub closed spec fn tree(&self) -> Option<Tree> {
        match self.layout_tree {
            Some(t) => t@,
            None => None,
        }
    }

    /// The window that has the focus.
    pub closed spec fn focus(&self) -> Option<WindowId> {
        self.focus
    }

    /// Geometry of the output that the workspace is bound to.
    pub closed spec fn output(&self) -> Rect {
        self.output
    }

    /// Id of the workspace.
    pub closed spec fn ident(&self) -> WorkspaceId {
        self.id
    }

    /// How the workspace arranges its windows.
    pub closed spec fn scheme(&self) -> LayoutScheme {
        self.layout
    }

    /// Number of tiled windows.
    pub open spec fn tile_count(&self) -> nat {
        match self.tree() {
            Some(t) => t.leaf_count(),
            None => 0,
        }
    }

    /// Everything but the list of windows is the same in both workspaces.
    pub open spec fn same_but_windows(self, other: Workspace) -> bool {
        &&& self.tree() == other.tree()
        &&& self.focus() == other.focus()
        &&& self.output() == other.output()
        &&& self.ident() == other.ident()
        &&& self.scheme() == other.scheme()
    }

    /// Everything but the tree and the list of windows is the same in both workspaces.
    pub open spec fn same_frame(self, other: Workspace) -> bool {
        &&& self.focus() == other.focus()
        &&& self.output() == other.output()
        &&& self.ident() == other.ident()
        &&& self.scheme() == other.scheme()
    }

    /// What tiling `window` makes of this workspace: `post` and the answer `r`.
    pub open spec fn tiled(
        self,
        post: Workspace,
        window: Window,
        focused_surface: Option<SurfaceId>,
        activate: bool,
        r: Result<Vec<Configure>, LayoutError>,
    ) -> bool {
        match self.tree() {
            None => {
                let first = Window { rec: outer_rect(self.output()), ..window };
                &&& post.same_frame(self)
                &&& post.tree() == Some(Tree::Leaf { id: post.tree()->0.id(), window: window.id, rec: first.rec })
                &&& post.windows() == self.windows().push(activated_if(first, activate))
                &&& r matches Ok(out) && out@ == seq![configure_of(first, false)]
            },
            Some(t) => match focus_target(self.windows(), focused_surface) {
                None => r == Err::<Vec<Configure>, LayoutError>(LayoutError::UnresolvedFocus) && post == self,
                Some(i) => if !t.windows().contains(self.windows()[i].id) {
                    r == Err::<Vec<Configure>, LayoutError>(LayoutError::NotFound) && post == self
                } else {
                    &&& post.same_frame(self)
                    &&& post.tree() matches Some(t2) && {
                        let rec = t.rect_of(self.windows()[i].id);
                        &&& t.splits_into(t2, self.windows()[i].id, window.id)
                        &&& t2.windows() == t.windows().insert(window.id)
                        &&& t2.rect_of(self.windows()[i].id) == first_half(rec, split_direction(rec))
                        &&& t2.rect_of(window.id) == second_half(rec, split_direction(rec))
                        &&& forall|w: WindowId| #[trigger]
                            t.windows().contains(w) && w != self.windows()[i].id ==> t2.rect_of(w) == t.rect_of(w)
                    }
                    &&& post.windows() == placed(self.windows().push(activated_if(window, activate)), post.tree())
                    &&& r matches Ok(out) && out@ == configures(post.windows(), false)
                },
            },
        }
    }

    /// What taking the tile of the window `id` out makes of this workspace.
    pub open spec fn untiled(
        self,
        post: Workspace,
        id: WindowId,
        r: Result<(), LayoutError>,
    ) -> bool {
        match self.tree() {
            None => r == Err::<(), LayoutError>(LayoutError::EmptyTree) && post == self,
            Some(t) => if !t.windows().contains(id) {
                r == Err::<(), LayoutError>(LayoutError::NotFound) && post == self
            } else {
                &&& r is Ok
                &&& post.tree() == t.without(id)
                &&& post.windows() == self.windows()
                &&& post.same_frame(self)
            },
        }
    }

    /// What removing the window of `surface` makes of this workspace.
    pub open spec fn removed(
        self,
        post: Workspace,
        surface: SurfaceId,
        r: Result<Vec<Configure>, LayoutError>,
    ) -> bool {
        match resolve(self.windows(), surface) {
            None => r == Err::<Vec<Configure>, LayoutError>(LayoutError::NotFound) && post == self,
            Some(i) => match self.tree() {
                None => r == Err::<Vec<Configure>, LayoutError>(LayoutError::EmptyTree) && post == self,
                Some(t) => if !t.windows().contains(self.windows()[i].id) {
                    r == Err::<Vec<Configure>, LayoutError>(LayoutError::NotFound) && post == self
                } else {
                    &&& post.tree() == t.without(self.windows()[i].id)
                    &&& post.windows() == placed(self.windows().remove(i), post.tree())
                    &&& post.focus() == if self.focus() == Some(self.windows()[i].id) {
                        None
                    } else {
                        self.focus()
                    }
                    &&& r matches Ok(out) && out@ == configures(post.windows(), false)
                    &&& post.output() == self.output()
                    &&& post.ident() == self.ident()
                    &&& post.scheme() == self.scheme()
                },
            },
        }
    }

    /// What swapping the sides of the split above the window of `focused_surface` makes of
    /// this workspace.
    pub open spec fn inverted(
        self,
        post: Workspace,
        focused_surface: Option<SurfaceId>,
        r: Result<Vec<Configure>, LayoutError>,
    ) -> bool {
        match tiling_target(self.tree(), self.windows(), focused_surface) {
            TilingTarget::Nothing => r matches Ok(out) && out@ == Seq::<Configure>::empty() && post == self,
            TilingTarget::Unresolved => r == Err::<Vec<Configure>, LayoutError>(LayoutError::UnresolvedFocus)
                && post == self,
            TilingTarget::Window(t, id) => {
                &&& post.tree() == Some(
                    if t.windows().contains(id) && t is Split {
                        t.inverted(id)
                    } else {
                        t
                    },
                )
                &&& post.windows() == placed(self.windows(), post.tree())
                &&& r matches Ok(out) && out@ == configures(post.windows(), false)
                &&& post.same_frame(self)
            },
        }
    }

    /// What a change of the output's geometry to `rec` makes of this workspace.
    pub open spec fn relaid(self, post: Workspace, rec: Rect, out: Seq<Configure>) -> bool {
        &&& post.output() == rec
        &&& post.tree() == match self.tree() {
            Some(t) => Some(t.laid_out(outer_rect(rec))),
            None => None,
        }
        &&& post.windows() == placed(self.windows(), post.tree())
        &&& out == configures(post.windows(), false)
        &&& post.focus() == self.focus()
        &&& post.ident() == self.ident()
        &&& post.scheme() == self.scheme()
    }

    /// The workspace is as a layout for an output of geometry `rec` leaves it: laying it out
    /// for `rec` once more changes neither the tree nor the windows.
    pub open spec fn settled(self, rec: Rect) -> bool {
        &&& self.output() == rec
        &&& self.tree() matches Some(t) ==> t.laid_out(outer_rect(rec)) == t
        &&& placed(self.windows(), self.tree()) == self.windows()
    }

    /// What a step of an interactive resize at the window of `focused_surface` makes of this
    /// workspace.
    pub open spec fn resized(
        self,
        post: Workspace,
        focused_surface: Option<SurfaceId>,
        offset: (i32, i32),
        r: Result<Vec<Configure>, LayoutError>,
    ) -> bool {
        match tiling_target(self.tree(), self.windows(), focused_surface) {
            TilingTarget::Nothing => r matches Ok(out) && out@ == Seq::<Configure>::empty() && post == self,
            TilingTarget::Unresolved => r == Err::<Vec<Configure>, LayoutError>(LayoutError::UnresolvedFocus)
                && post == self,
            TilingTarget::Window(t, id) => {
                &&& post.tree() == Some(
                    if t.windows().contains(id) && t is Split {
                        t.resized(id, offset)
                    } else {
                        t
                    },
                )
                &&& post.windows() == placed(self.windows(), post.tree())
                &&& r matches Ok(out) && out@ == configures(self.windows(), true) + configures(
                    post.windows(),
                    false,
                )
                &&& post.same_frame(self)
            },
        }
    }

    /// No id occurs twice in the list, the focus is on a window of the list, and the tree,
    /// where there is one, is sound and tiles windows of the list.
    pub closed spec fn wf(&self) -> bool {
        &&& distinct_ids(self.windows@)
        &&& usable_output(self.output)
        &&& (self.focus matches Some(f) ==> has_id(self.windows@, f))
        &&& self.tiles == self.tile_count()
        &&& match self.layout_tree {
            None => true,
            Some(t) => t.wf() && t@ is Some && tree_fits_list(t@->0, self.windows@),
        }
    }

    /// In every state of a workspace the list holds no id twice, the focused window is in
    /// the list, every tiled window is in the list, the tree has one leaf per tiled window,
    /// and every split of the tree is tiled by the rectangles of its two children.
    pub proof fn lemma_invariant(&self)
        requires
            self.wf(),
        ensures
            distinct_ids(self.windows()),
            usable_output(self.output()),
            self.focus() matches Some(f) ==> has_id(self.windows(), f),
            self.tree() matches Some(t) ==> {
                &&& tree_fits_list(t, self.windows())
                &&& t.windows().finite()
                &&& t.windows().len() == t.leaf_count()
            },
    {
        if let Some(t) = self.tree() {
            lemma_counts(t);
        }
    }

    /// An empty workspace on an output that is small enough to be laid out.
    pub fn new(id: WorkspaceId, output: Rect, layout: LayoutScheme) -> (ws: Workspace)
        requires
            usable_output(output),
        ensures
            ws.wf(),
            ws.ident() == id,
            ws.output() == output,
            ws.scheme() == layout,
            ws.windows() == Seq::<Window>::empty(),
            ws.tree() is None,
            ws.focus() is None,
    {
        Workspace {
            id,
            output,
            windows: Vec::new(),
            layout,
            layout_tree: None,
            tiles: 0,
            focus: None,
        }
    }

    pub fn id(&self) -> (r: WorkspaceId)
        ensures
            r == self.ident(),
    {
        self.id
    }

    pub fn layout(&self) -> (r: LayoutScheme)
        ensures
            r == self.scheme(),
    {
        self.layout
    }

    /// Number of tiled windows.
    pub fn tiled_count(&self) -> (r: usize)
        requires
            self.wf(),
        ensures
            r == self.tile_count(),
    {
        self.tiles
    }

    /// Whether any window is tiled.
    pub fn is_tiled(&self) -> (r: bool)
        requires
            self.wf(),
        ensures
            r == (self.tree() is Some),
    {
        self.layout_tree.is_some()
    }

    /// The windows from the bottom one to the top one.
    pub fn elements(&self) -> (r: &Vec<Window>)
        ensures
            r@ == self.windows(),
    {
        &self.windows
    }

    pub fn output_geometry(&self) -> (r: Rect)
        ensures
            r == self.output(),
    {
        self.output
    }

    pub fn get_focus(&self) -> (r: Option<WindowId>)
        ensures
            r == self.focus(),
    {
        self.focus
    }

    /// Notes the window that `surface` resolves to as the focused one. A surface that
    /// resolves to no window leaves the focus where it is.
    pub fn set_focus(&mut self, surface: SurfaceId)
        requires
            old(self).wf(),
        ensures
            final(self).wf(),
            final(self).windows() == old(self).windows(),
            final(self).tree() == old(self).tree(),
            final(self).output() == old(self).output(),
            final(self).ident() == old(self).ident(),
            final(self).scheme() == old(self).scheme(),
            final(self).focus() == match resolve(old(self).windows(), surface) {
                Some(i) => Some(old(self).windows()[i].id),
                None => old(self).focus(),
            },
    {
        if let Some(i) = find_surface(&self.windows, surface) {
            self.focus = Some(self.windows[i].id);
        }
    }

    /// Puts `window` on top of the list at `location`, in place of an earlier entry of the
    /// same window, and sets its activation flag if `activate` asks for it.
    pub fn map_element(&mut self, window: Window, location: (i32, i32), activate: bool)
        requires
            old(self).wf(),
        ensures
            final(self).wf(),
            final(self).windows() == mapped(old(self).windows(), window, location, activate),
            final(self).same_but_windows(*old(self)),
    {
        proof {
            lemma_position(self.windows@, window.id);
        }
        let ghost before = self.windows@;
        if let Some(i) = find_id(&self.windows, window.id) {
            proof {
                lemma_remove_ids(before, i as int);
            }
            self.windows.remove(i);
        }
        let ghost base = self.windows@;
        assert(base == unmapped(before, window.id));
        let placed_window = Window {
            rec: Rect { x: location.0, y: location.1, w: window.rec.w, h: window.rec.h },
            activated: window.activated || activate,
            ..window
        };
        assert(placed_window == activated_if(moved_to(window, location), activate));
        proof {
            lemma_push_ids(base, placed_window);
        }
        self.windows.push(placed_window);
        proof {
            assert forall|id: WindowId| has_id(before, id) implies has_id(self.windows@, id) by {}
            if let Some(t) = self.tree() {
                lemma_fits_wider_list(t, before, self.windows@);
            }
        }
    }

    /// Moves `window` to the top of the list and sets its activation flag if `activate` asks
    /// for it. A window that is not in the list changes nothing.
    pub fn raise_element(&mut self, window: &Window, activate: bool)
        requires
            old(self).wf(),
        ensures
            final(self).wf(),
            final(self).windows() == match position(old(self).windows(), window.id) {
                Some(i) => raised(old(self).windows(), i, activate),
                None => old(self).windows(),
            },
            final(self).same_but_windows(*old(self)),
    {
        let ghost before = self.windows@;
        if let Some(i) = find_id(&self.windows, window.id) {
            proof {
                lemma_remove_ids(before, i as int);
                lemma_push_ids(before.remove(i as int), activated_if(before[i as int], activate));
            }
            raise_at(&mut self.windows, i, activate);
        }
        proof {
            assert forall|id: WindowId| has_id(before, id) implies has_id(self.windows@, id) by {}
            if let Some(t) = self.tree() {
                lemma_fits_wider_list(t, before, self.windows@);
            }
        }
    }

    /// Moves `window` to the top of the list, activates it, clears the activation flag of
    /// every other window, and tells every client. A window that is not in the list changes
    /// nothing, and nobody is told.
    pub fn single_out(&mut self, window: &Window) -> (out: Vec<Configure>)
        requires
            old(self).wf(),
        ensures
            final(self).wf(),
            final(self).same_but_windows(*old(self)),
            match position(old(self).windows(), window.id) {
                Some(i) => final(self).windows() == singled_out(old(self).windows(), i) && out@ == configures(
                    final(self).windows(),
                    false,
                ),
                None => final(self).windows() == old(self).windows() && out@ == Seq::<Configure>::empty(),
            },
    {
        let ghost before = self.windows@;
        match find_id(&self.windows, window.id) {
            Some(i) => {
                proof {
                    lemma_remove_ids(before, i as int);
                    lemma_push_ids(before.remove(i as int), activated_if(before[i as int], true));
                }
                raise_at(&mut self.windows, i, true);
                let ghost mid = self.windows@;
                let top = self.windows.len() - 1;
                clear_others(&mut self.windows, top);
                proof {
                    lemma_only_active_ids(mid, top as int);
                    assert forall|id: WindowId| has_id(before, id) implies has_id(self.windows@, id) by {
                        assert(has_id(mid, id));
                    }
                    if let Some(t) = self.tree() {
                        lemma_fits_wider_list(t, before, self.windows@);
                    }
                }
                configure_all(&self.windows, false)
            },
            None => Vec::new(),
        }
    }

    /// The topmost window whose rectangle holds the point, with the window's location.
    pub fn element_under(&self, px: i32, py: i32) -> (r: Option<(Window, (i32, i32))>)
        ensures
            match hit(self.windows(), px as int, py as int) {
                Some(i) => r == Some(
                    (self.windows()[i], (self.windows()[i].rec.x, self.windows()[i].rec.y)),
                ),
                None => r is None,
            },
    {
        match find_under(&self.windows, px, py) {
            Some(i) => {
                let w = self.windows[i];
                Some((w, (w.rec.x, w.rec.y)))
            },
            None => None,
        }
    }

    /// Where `window` is mapped, if it is in the list.
    pub fn element_location(&self, window: &Window) -> (r: Option<(i32, i32)>)
        ensures
            match position(self.windows(), window.id) {
                Some(i) => r == Some((self.windows()[i].rec.x, self.windows()[i].rec.y)),
                None => r is None,
            },
    {
        match find_id(&self.windows, window.id) {
            Some(i) => Some((self.windows[i].rec.x, self.windows[i].rec.y)),
            None => None,
        }
    }

    /// The rectangle that `window` fills, if it is in the list.
    pub fn element_geometry(&self, window: &Window) -> (r: Option<Rect>)
        ensures
            match position(self.windows(), window.id) {
                Some(i) => r == Some(self.windows()[i].rec),
                None => r is None,
            },
    {
        match find_id(&self.windows, window.id) {
            Some(i) => Some(self.windows[i].rec),
            None => None,
        }
    }

    /// Clears the activation flag of every window and tells every client.
    pub fn deactivate(&mut self) -> (out: Vec<Configure>)
        requires
            old(self).wf(),
        ensures
            final(self).wf(),
            final(self).windows() == with_activation(old(self).windows(), false),
            out@ == configures(final(self).windows(), false),
            final(self).same_but_windows(*old(self)),
    {
        self.set_all_activation(false)
    }

    /// Sets the activation flag of every window and tells every client.
    pub fn set_all_activation(&mut self, activate: bool) -> (out: Vec<Configure>)
        requires
            old(self).wf(),
        ensures
            final(self).wf(),
            final(self).windows() == with_activation(old(self).windows(), activate),
            out@ == configures(final(self).windows(), false),
            final(self).same_but_windows(*old(self)),
    {
        let ghost before = self.windows@;
        set_activation(&mut self.windows, activate);
        proof {
            let after = self.windows@;
            assert forall|id: WindowId| has_id(after, id) == has_id(before, id) by {
                if has_id(after, id) {
                    let i = choose|i: int| 0 <= i < after.len() && after[i].id == id;
                    assert(before[i].id == id);
                }
                if has_id(before, id) {
                    let i = choose|i: int| 0 <= i < before.len() && before[i].id == id;
                    assert(after[i].id == id);
                }
            }
            if let Some(t) = self.tree() {
                lemma_fits_wider_list(t, before, after);
            }
        }
        configure_all(&self.windows, false)
    }

    /// The messages that announce an interactive resize to every client. Nothing changes.
    pub fn send_resize_configure(&self) -> (out: Vec<Configure>)
        ensures
            out@ == configures(self.windows(), true),
    {
        configure_all(&self.windows, true)
    }

    /// Ends an interactive resize: puts every tiled window in the rectangle of its tile and
    /// tells every client its rectangle, with the resize hint cleared.
    pub fn send_unresize_configure(&mut self) -> (out: Vec<Configure>)
        requires
            old(self).wf(),
        ensures
            final(self).wf(),
            final(self).windows() == placed(old(self).windows(), old(self).tree()),
            out@ == configures(final(self).windows(), false),
            final(self).same_but_windows(*old(self)),
    {
        self.send_pending_configure()
    }

    /// Puts every tiled window in the rectangle of its tile and tells every client its
    /// rectangle.
    pub fn send_pending_configure(&mut self) -> (out: Vec<Configure>)
        requires
            old(self).wf(),
        ensures
            final(self).wf(),
            final(self).windows() == placed(old(self).windows(), old(self).tree()),
            out@ == configures(final(self).windows(), false),
            final(self).same_but_windows(*old(self)),
    {
        let ghost before = self.windows@;
        let ghost tree = self.tree();
        if let Some(layout_tree) = &self.layout_tree {
            let mut i: usize = 0;
            while i < self.windows.len()
                invariant
                    0 <= i <= self.windows.len(),
                    self.windows@.len() == before.len(),
                    layout_tree.wf(),
                    layout_tree@ == tree,
                    self.layout_tree == old(self).layout_tree,
                    self.focus == old(self).focus,
                    self.output == old(self).output,
                    self.id == old(self).id,
                    self.layout == old(self).layout,
                    self.tiles == old(self).tiles,
                    forall|j: int| 0 <= j < i ==> self.windows@[j] == place_one(before[j], tree),
                    forall|j: int| i <= j < before.len() ==> self.windows@[j] == before[j],
                decreases self.windows.len() - i,
            {
                let w = self.windows[i];
                if let Some(rec) = layout_tree.rect_of(&w) {
                    self.windows.set(i, Window { rec, ..w });
                }
                i += 1;
            }
        }
        proof {
            lemma_placed(before, tree);
            assert(self.windows@ =~= placed(before, tree));
            if let Some(t) = tree {
                lemma_fits_wider_list(t, before, self.windows@);
            }
        }
        configure_all(&self.windows, false)
    }

    /// Tiles `window`. The first tiled window fills the output less one gap on every side;
    /// every later one takes the second half of the tile of the window that
    /// `focused_surface` resolves to, which keeps the first half. The window goes on top of
    /// the list, and every client learns its rectangle. The window must be new to the
    /// workspace, the workspace must have room for one more tile, and a second tile is only
    /// made under the default scheme.
    pub fn map_tiled_element(
        &mut self,
        window: Window,
        focused_surface: Option<SurfaceId>,
        activate: bool,
    ) -> (r: Result<Vec<Configure>, LayoutError>)
        requires
            old(self).wf(),
            !has_id(old(self).windows(), window.id),
            old(self).tile_count() < MAX_TILES,
            old(self).tree() is Some ==> old(self).scheme() == LayoutScheme::Default,
        ensures
            final(self).wf(),
            old(self).tiled(*final(self), window, focused_surface, activate, r),
    {
        let ghost before = self.windows@;
        if self.layout_tree.is_none() {
            let rec = outer_of(&self.output);
            let first = Window { rec, ..window };
            let out = vec![Configure { surface: first.surface, rec, activated: first.activated, resizing: false }];
            let tree = TiledTree::new(first);
            proof {
                tree.lemma_invariant();
                lemma_push_ids(before, activated_if(first, activate));
                assert(tree@->0.windows() =~= set![window.id]);
                assert(tree@->0.leaf_count() == 1);
            }
            self.layout_tree = Some(tree);
            self.tiles = 1;
            self.windows.push(Window { activated: first.activated || activate, ..first });
            assert(out@ =~= seq![configure_of(first, false)]);
            return Ok(out);
        }
        let surface = match focused_surface {
            Some(surface) => surface,
            None => { return Err(LayoutError::UnresolvedFocus); },
        };
        let focus = match find_surface(&self.windows, surface) {
            Some(i) => self.windows[i],
            None => { return Err(LayoutError::UnresolvedFocus); },
        };
        let tiled = match &self.layout_tree {
            Some(tree) => tree.find_node(&focus).is_some(),
            None => false,
        };
        if !tiled {
            return Err(LayoutError::NotFound);
        }
        let mut tree = self.layout_tree.take().unwrap();
        let ghost t = tree@->0;
        proof {
            lemma_counts(t);
            lemma_tame_tile(t, OUTPUT_BOUND as int, focus.id);
            if t.windows().contains(window.id) {
                assert(has_id(before, window.id));
            }
        }
        tree.insert(&focus, window);
        proof {
            tree.lemma_invariant();
            let t2 = tree@->0;
            let (first, second) = choose|first: NodeId, second: NodeId|
                {
                    &&& first != second
                    &&& !t.ids().contains(first)
                    &&& !t.ids().contains(second)
                    &&& t2 == #[trigger] t.with_split(focus.id, window.id, first, second)
                };
            lemma_with_split(t, focus.id, window.id, first, second, focus.id);
            lemma_with_split_tame(t, focus.id, window.id, first, second, OUTPUT_BOUND as int);
            lemma_push_ids(before, activated_if(window, activate));
            assert forall|w: WindowId| #[trigger] t2.windows().contains(w) implies has_id(
                before.push(activated_if(window, activate)),
                w,
            ) by {
                if w != window.id {
                    assert(t.windows().contains(w));
                    assert(has_id(before, w));
                }
            }
        }
        self.layout_tree = Some(tree);
        self.tiles = self.tiles + 1;
        self.windows.push(Window { activated: window.activated || activate, ..window });
        Ok(self.send_pending_configure())
    }

    /// Takes the tile of `window` out of the tree. The window stays in the list.
    pub fn unmap_tiled_element(&mut self, window: Window) -> (r: Result<(), LayoutError>)
        requires
            old(self).wf(),
        ensures
            final(self).wf(),
            old(self).untiled(*final(self), window.id, r),
    {
        let tiled = match &self.layout_tree {
            Some(tree) => tree.find_node(&window).is_some(),
            None => { return Err(LayoutError::EmptyTree); },
        };
        if !tiled {
            return Err(LayoutError::NotFound);
        }
        let mut tree = self.layout_tree.take().unwrap();
        let ghost t = tree@->0;
        proof {
            lemma_counts(t);
            lemma_without_tame(t, window.id, OUTPUT_BOUND as int);
            lemma_without_windows(t, window.id);
        }
        tree.remove(&window);
        self.tiles = self.tiles - 1;
        if tree.is_empty() {
            self.layout_tree = None;
        } else {
            self.layout_tree = Some(tree);
        }
        Ok(())
    }

    /// Takes the window that `surface` resolves to out of the tree and out of the list,
    /// drops the focus if it was on that window, and tells every remaining client its
    /// rectangle.
    pub fn remove_window(&mut self, surface: &SurfaceId) -> (r: Result<Vec<Configure>, LayoutError>)
        requires
            old(self).wf(),
        ensures
            final(self).wf(),
            old(self).removed(*final(self), *surface, r),
    {
        let ghost before = self.windows@;
        let i = match find_surface(&self.windows, *surface) {
            Some(i) => i,
            None => { return Err(LayoutError::NotFound); },
        };
        let window = self.windows[i];
        let tiled = match &self.layout_tree {
            Some(tree) => tree.find_node(&window).is_some(),
            None => { return Err(LayoutError::EmptyTree); },
        };
        if !tiled {
            return Err(LayoutError::NotFound);
        }
        let ghost t = self.tree()->0;
        match self.unmap_tiled_element(window) {
            Ok(()) => {},
            Err(e) => { return Err(e); },
        }
        proof {
            lemma_remove_ids(before, i as int);
            lemma_counts(t);
            lemma_without_tame(t, window.id, OUTPUT_BOUND as int);
            lemma_without_windows(t, window.id);
            if let Some(t2) = self.tree() {
                assert forall|w: WindowId| #[trigger] t2.windows().contains(w) implies has_id(
                    before.remove(i as int),
                    w,
                ) by {
                    assert(t.windows().contains(w) && w != window.id);
                    assert(has_id(before, w));
                }
            }
        }
        self.windows.remove(i);
        if self.focus == Some(window.id) {
            self.focus = None;
        }
        Ok(self.send_pending_configure())
    }

    /// Swaps the two sides of the split above the tile of the window that `focused_surface`
    /// resolves to, and tells every client its rectangle. Without a tree or without a
    /// surface nothing happens and nobody is told.
    pub fn invert_window(
        &mut self,
        focused_surface: Option<SurfaceId>,
    ) -> (r: Result<Vec<Configure>, LayoutError>)
        requires
            old(self).wf(),
        ensures
            final(self).wf(),
            old(self).inverted(*final(self), focused_surface, r),
    {
        if self.layout_tree.is_none() || focused_surface.is_none() {
            return Ok(Vec::new());
        }
        let focus = match find_surface(&self.windows, focused_surface.unwrap()) {
            Some(i) => self.windows[i],
            None => { return Err(LayoutError::UnresolvedFocus); },
        };
        let mut tree = self.layout_tree.take().unwrap();
        let ghost t = tree@->0;
        tree.invert_window(&focus);
        proof {
            lemma_counts(t);
            if t.windows().contains(focus.id) && t is Split {
                lemma_inverted(t, focus.id, OUTPUT_BOUND as int);
                tree.lemma_invariant();
                lemma_counts(tree@->0);
            }
        }
        self.layout_tree = Some(tree);
        Ok(self.send_pending_configure())
    }

    /// Lays all tiles out anew for an output of geometry `rec`, and tells every client its
    /// rectangle.
    pub fn modify_windows(&mut self, rec: Rect) -> (out: Vec<Configure>)
        requires
            old(self).wf(),
            usable_output(rec),
        ensures
            final(self).wf(),
            old(self).relaid(*final(self), rec, out@),
            final(self).settled(rec),
    {
        let outer = outer_of(&rec);
        self.output = rec;
        if self.layout_tree.is_some() {
            let mut tree = self.layout_tree.take().unwrap();
            let ghost t = tree@->0;
            let root_id = tree.get_root().unwrap();
            proof {
                lemma_counts(t);
                lemma_nodes_dom(t);
                lemma_laid_out_tame(t, outer, OUTPUT_BOUND as int);
                lemma_laid_out(t, outer);
            }
            tree.modify(root_id, &outer);
            proof {
                assert(tree@ == Some(t.laid_out(outer)));
                tree.lemma_invariant();
                lemma_laid_out_idempotent(t, outer);
            }
            self.layout_tree = Some(tree);
        }
        proof {
            lemma_placed_twice(self.windows@, self.tree());
        }
        self.send_pending_configure()
    }

    /// One step of an interactive resize at the window that `focused_surface` resolves to:
    /// every client is told that a resize is under way, the boundary between the window's
    /// tile and its sibling moves by `offset` as far as both keep at least one pixel, and
    /// every client is told its rectangle with the hint cleared. Without a tree or without a
    /// surface nothing happens and nobody is told.
    pub fn resize(
        &mut self,
        focused_surface: Option<SurfaceId>,
        offset: (i32, i32),
    ) -> (r: Result<Vec<Configure>, LayoutError>)
        requires
            old(self).wf(),
        ensures
            final(self).wf(),
            old(self).resized(*final(self), focused_surface, offset, r),
    {
        if self.layout_tree.is_none() || focused_surface.is_none() {
            return Ok(Vec::new());
        }
        let focus = match find_surface(&self.windows, focused_surface.unwrap()) {
            Some(i) => self.windows[i],
            None => { return Err(LayoutError::UnresolvedFocus); },
        };
        let mut out = self.send_resize_configure();
        let mut tree = self.layout_tree.take().unwrap();
        let ghost t = tree@->0;
        proof {
            lemma_counts(t);
            if t.windows().contains(focus.id) && t is Split {
                lemma_resized(t, focus.id, offset, OUTPUT_BOUND as int);
            }
        }
        tree.resize(&focus, offset);
        proof {
            tree.lemma_invariant();
            lemma_counts(tree@->0);
        }
        self.layout_tree = Some(tree);
        let mut done = self.send_unresize_configure();
        let ghost first = out@;
        out.append(&mut done);
        Ok(out)
    }
}

/// The window position that an optional surface resolves to.
pub open spec fn focus_target(ws: Seq<Window>, surface: Option<SurfaceId>) -> Option<int> {
    match surface {
        Some(s) => resolve(ws, s),
        None => None,
    }
}

/// What a request that names a focused surface acts on.
pub enum TilingTarget {
    /// There is no tree or no surface: the request is void.
    Nothing,
    /// The surface resolves to no window of the list.
    Unresolved,
    /// The tree, and the id of the window that the surface resolves to.
    Window(Tree, WindowId),
}

/// What a request for `surface` acts on in a workspace with this tree and this list.
pub open spec fn tiling_target(
    tree: Option<Tree>,
    ws: Seq<Window>,
    surface: Option<SurfaceId>,
) -> TilingTarget {
    match (tree, surface) {
        (Some(t), Some(s)) => match resolve(ws, s) {
            Some(i) => TilingTarget::Window(t, ws[i].id),
            None => TilingTarget::Unresolved,
        },
        _ => TilingTarget::Nothing,
    }
}

} // verus!
