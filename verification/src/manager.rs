//! The workspace manager: all workspaces, and the one that is active. Requests for windows
//! go to the active workspace.

use vstd::prelude::*;
use crate::geometry::Rect;
use crate::tiled_tree::LayoutScheme;
use crate::window::{SurfaceId, Window};
use crate::workspace::{usable_output, LayoutError, Workspace, WorkspaceId, MAX_TILES};
use crate::zorder::{
    configures, find_surface, has_id, hit, mapped, placed, position, raised, resolve, singled_out,
    with_activation, Configure,
};

verus! {

/// All workspaces, the id of the active one, and the id that the next workspace gets.
pub struct WorkspaceManager {
    workspaces: Vec<Workspace>,
    activated_workspace: Option<WorkspaceId>,
    next_id: usize,
}

/// `i` is the position of the workspace with this id.
pub open spec fn is_workspace(ws: Seq<Workspace>, id: WorkspaceId, i: int) -> bool {
    0 <= i < ws.len() && ws[i].ident() == id
}

/// Some workspace of the list has this id.
pub open spec fn names_workspace(ws: Seq<Workspace>, id: WorkspaceId) -> bool {
    exists|i: int| is_workspace(ws, id, i)
}

/// Position of the workspace with this id in a list that has one.
pub open spec fn index_in(ws: Seq<Workspace>, id: WorkspaceId) -> int {
    choose|i: int| is_workspace(ws, id, i)
}

/// The two lists differ at most in the workspace with this id, which is at the same
/// position in both.
pub open spec fn same_but(ws: Seq<Workspace>, other: Seq<Workspace>, id: WorkspaceId) -> bool {
    &&& ws.len() == other.len()
    &&& index_in(ws, id) == index_in(other, id)
    &&& ws[index_in(ws, id)].ident() == id
    &&& other[index_in(ws, id)].ident() == id
    &&& forall|i: int| 0 <= i < ws.len() && i != index_in(ws, id) ==> ws[i] == other[i]
}

/// Every workspace is sound, no two have the same id, every id is below `next`, and the
/// active id names a workspace.
pub open spec fn sound(ws: Seq<Workspace>, active: Option<WorkspaceId>, next: usize) -> bool {
    &&& (forall|i: int| 0 <= i < ws.len() ==> (#[trigger] ws[i]).wf())
    &&& (forall|i: int| 0 <= i < ws.len() ==> (#[trigger] ws[i]).ident().0 < next)
    &&& (forall|i: int, j: int|
        0 <= i < j < ws.len() ==> (#[trigger] ws[i]).ident() != (#[trigger] ws[j]).ident())
    &&& (active matches Some(id) ==> names_workspace(ws, id))
}

/// Exchanging a workspace for a sound one of the same id keeps a manager sound.
proof fn lemma_update_sound(
    ws: Seq<Workspace>,
    active: Option<WorkspaceId>,
    next: usize,
    i: int,
    w: Workspace,
)
    requires
        sound(ws, active, next),
        0 <= i < ws.len(),
        w.wf(),
        w.ident() == ws[i].ident(),
    ensures
        sound(ws.update(i, w), active, next),
        forall|id: WorkspaceId, k: int| is_workspace(ws, id, k) <==> is_workspace(ws.update(i, w), id, k),
{
    let after = ws.update(i, w);
    assert forall|a: int, b: int| 0 <= a < b < after.len() implies (#[trigger] after[a]).ident() != (
    #[trigger] after[b]).ident() by {
        assert(after[a].ident() == ws[a].ident());
        assert(after[b].ident() == ws[b].ident());
    }
    assert forall|id: WorkspaceId, k: int| is_workspace(ws, id, k) <==> is_workspace(after, id, k) by {
        if 0 <= k < ws.len() {
            assert(after[k].ident() == ws[k].ident());
        }
    }
    if let Some(id) = active {
        let k = choose|k: int| is_workspace(ws, id, k);
        assert(is_workspace(after, id, k));
    }
}

/// A change to the active workspace that keeps it sound and keeps its id keeps the manager
/// sound, and leaves the active workspace where it was.
proof fn lemma_current_changed(
    before: Seq<Workspace>,
    after: Seq<Workspace>,
    active: Option<WorkspaceId>,
    next: usize,
    i: int,
)
    requires
        sound(before, active, next),
        active is Some,
        i == index_in(before, active->0),
        after.len() == before.len(),
        forall|j: int| 0 <= j < before.len() && j != i ==> after[j] == before[j],
        0 <= i < before.len() ==> after[i].wf() && after[i].ident() == before[i].ident(),
    ensures
        0 <= i < before.len(),
        before[i].ident() == active->0,
        sound(after, active, next),
        same_but(after, before, active->0),
        index_in(after, active->0) == i,
{
    let id = active->0;
    assert(names_workspace(before, id));
    assert(is_workspace(before, id, i));
    assert(after =~= before.update(i, after[i]));
    lemma_update_sound(before, active, next, i, after[i]);
    assert(is_workspace(after, id, i));
    let k = index_in(after, id);
    if k != i {
        assert(after[k].ident() != after[i].ident());
    }
}

impl WorkspaceManager {
    /// The workspaces in the order in which they were added.
    pub closed spec fn workspaces(&self) -> Seq<Workspace> {
        self.workspaces@
    }

    /// Id of the active workspace.
    pub closed spec fn activated(&self) -> Option<WorkspaceId> {
        self.activated_workspace
    }

    /// The value that the next workspace gets as its id.
    pub closed spec fn next_id(&self) -> usize {
        self.next_id
    }

    /// Some workspace has this id.
    pub open spec fn has_workspace(&self, id: WorkspaceId) -> bool {
        names_workspace(self.workspaces(), id)
    }

    /// Position of the workspace with this id.
    pub open spec fn index_of(&self, id: WorkspaceId) -> int {
        index_in(self.workspaces(), id)
    }

    /// Position of the active workspace.
    pub open spec fn current_index(&self) -> int {
        self.index_of(self.activated()->0)
    }

    /// The active workspace.
    pub open spec fn current(&self) -> Workspace {
        self.workspaces()[self.current_index()]
    }

    /// Every workspace is sound, no two have the same id, every id is below the next id to
    /// be given out, and the active id names a workspace.
    pub closed spec fn wf(&self) -> bool {
        sound(self.workspaces@, self.activated_workspace, self.next_id)
    }

    /// In every state of the manager every workspace is sound, ids are not shared, and an
    /// active id names a workspace, which is then the one at the current position.
    pub proof fn lemma_invariant(&self)
        requires
            self.wf(),
        ensures
            forall|i: int| 0 <= i < self.workspaces().len() ==> (#[trigger] self.workspaces()[i]).wf(),
            forall|i: int, j: int|
                0 <= i < self.workspaces().len() && 0 <= j < self.workspaces().len() && i != j ==> (
                #[trigger] self.workspaces()[i]).ident() != (#[trigger] self.workspaces()[j]).ident(),
            self.activated() matches Some(id) ==> {
                &&& self.has_workspace(id)
                &&& 0 <= self.current_index() < self.workspaces().len()
                &&& self.current().ident() == id
                &&& self.current().wf()
            },
    {
        if let Some(id) = self.activated() {
            let c = self.current_index();
            assert(is_workspace(self.workspaces(), id, c));
        }
        assert forall|i: int, j: int|
            0 <= i < self.workspaces().len() && 0 <= j < self.workspaces().len() && i != j implies (
            #[trigger] self.workspaces()[i]).ident() != (#[trigger] self.workspaces()[j]).ident() by {
            if i < j {
            } else {
                assert(self.workspaces@[j].ident() != self.workspaces@[i].ident());
            }
        }
    }

    /// The position of a workspace is the only one with its id.
    pub proof fn lemma_index(&self, id: WorkspaceId, i: int)
        requires
            self.wf(),
            is_workspace(self.workspaces(), id, i),
        ensures
            self.index_of(id) == i,
            self.has_workspace(id),
    {
        self.lemma_invariant();
        let c = self.index_of(id);
        assert(is_workspace(self.workspaces(), id, c));
        if c != i {
            assert(self.workspaces()[c].ident() != self.workspaces()[i].ident());
        }
    }

    /// Nothing but the active workspace differs between the two managers.
    pub open spec fn same_but_current(&self, other: &WorkspaceManager) -> bool {
        &&& self.activated() == other.activated()
        &&& self.next_id() == other.next_id()
        &&& same_but(self.workspaces(), other.workspaces(), self.activated()->0)
    }

    /// A manager without workspaces. The first workspace will get the id 1.
    pub fn new() -> (m: WorkspaceManager)
        ensures
            m.wf(),
            m.workspaces() == Seq::<Workspace>::empty(),
            m.activated() is None,
            m.next_id() == 1,
    {
        WorkspaceManager { workspaces: Vec::new(), activated_workspace: None, next_id: 1 }
    }

    /// Number of workspaces.
    pub fn _workspaces_counts(&self) -> (r: usize)
        ensures
            r == self.workspaces().len(),
    {
        self.workspaces.len()
    }

    /// Position of the workspace with this id, if there is one.
    pub fn find_workspace(&self, id: WorkspaceId) -> (r: Option<usize>)
        requires
            self.wf(),
        ensures
            r is Some == self.has_workspace(id),
            r matches Some(i) ==> i == self.index_of(id) && i < self.workspaces().len(),
    {
        let mut i: usize = 0;
        while i < self.workspaces.len()
            invariant
                0 <= i <= self.workspaces.len(),
                self.wf(),
                forall|j: int| 0 <= j < i ==> self.workspaces@[j].ident() != id,
            decreases self.workspaces.len() - i,
        {
            if self.workspaces[i].id() == id {
                proof {
                    self.lemma_index(id, i as int);
                }
                return Some(i);
            }
            i += 1;
        }
        None
    }

    /// Whether a workspace is active.
    pub fn has_current(&self) -> (r: bool)
        ensures
            r == (self.activated() is Some),
    {
        self.activated_workspace.is_some()
    }

    fn current_position(&self) -> (i: usize)
        requires
            self.wf(),
            self.activated() is Some,
        ensures
            i == self.current_index(),
            i < self.workspaces().len(),
            self.workspaces()[i as int].wf(),
            self.workspaces()[i as int].ident() == self.activated()->0,
    {
        let id = self.activated_workspace.unwrap();
        let found = self.find_workspace(id);
        found.unwrap()
    }

    /// Adds an empty workspace on an output, with the next id, and makes it the active one
    /// if `activate` asks for it; the windows of the workspace that was active lose their
    /// activation then, and their clients are told.
    pub fn add_workspace(
        &mut self,
        output: Rect,
        layout: Option<LayoutScheme>,
        activate: bool,
    ) -> (out: Vec<Configure>)
        requires
            old(self).wf(),
            usable_output(output),
            old(self).next_id() < usize::MAX,
        ensures
            final(self).wf(),
            final(self).next_id() == old(self).next_id() + 1,
            final(self).workspaces().len() == old(self).workspaces().len() + 1,
            ({
                let added = final(self).workspaces().last();
                &&& added.ident() == WorkspaceId(old(self).next_id())
                &&& added.output() == output
                &&& added.scheme() == match layout {
                    Some(l) => l,
                    None => LayoutScheme::Default,
                }
                &&& added.windows() == Seq::<Window>::empty()
                &&& added.tree() is None
                &&& added.focus() is None
            }),
            final(self).activated() == if activate {
                Some(WorkspaceId(old(self).next_id()))
            } else {
                old(self).activated()
            },
            old(self).switched_away(final(self), activate, out@),
    {
        let id = WorkspaceId::next(&mut self.next_id);
        let scheme = match layout {
            Some(l) => l,
            None => LayoutScheme::Default,
        };
        let workspace = Workspace::new(id, output, scheme);
        let ghost before = self.workspaces@;
        let out = if activate && self.activated_workspace.is_some() {
            let i = self.current_position();
            let out = self.workspaces[i].deactivate();
            proof {
                assert(self.workspaces@ =~= before.update(i as int, self.workspaces@[i as int]));
                lemma_update_sound(
                    before,
                    self.activated_workspace,
                    old(self).next_id,
                    i as int,
                    self.workspaces@[i as int],
                );
            }
            out
        } else {
            Vec::new()
        };
        if activate {
            self.activated_workspace = Some(id);
        }
        let ghost mid = self.workspaces@;
        self.workspaces.push(workspace);
        proof {
            assert(is_workspace(self.workspaces@, id, mid.len() as int));
            if let Some(cur) = self.activated_workspace {
                if cur != id {
                    let c = old(self).index_of(cur);
                    assert(is_workspace(self.workspaces@, cur, c));
                }
            }
            assert forall|i: int, j: int| 0 <= i < j < self.workspaces@.len() implies (
            #[trigger] self.workspaces@[i]).ident() != (#[trigger] self.workspaces@[j]).ident() by {
                assert(mid[i].ident() == before[i].ident());
                if j < mid.len() {
                    assert(mid[j].ident() == before[j].ident());
                }
            }
        }
        out
    }

    /// What the step away from the active workspace did, if one was taken: the windows of
    /// the workspace that was active lost their activation, and `out` tells their clients.
    pub open spec fn switched_away(
        &self,
        post: &WorkspaceManager,
        switch: bool,
        out: Seq<Configure>,
    ) -> bool {
        let n = self.workspaces().len() as int;
        if switch && self.activated() is Some && post.activated() != self.activated() {
            let c = self.current_index();
            &&& post.workspaces()[c].windows() == with_activation(self.current().windows(), false)
            &&& post.workspaces()[c].same_but_windows(self.current())
            &&& out == configures(post.workspaces()[c].windows(), false)
            &&& forall|i: int| 0 <= i < n && i != c ==> post.workspaces()[i] == self.workspaces()[i]
        } else {
            &&& out == Seq::<Configure>::empty()
            &&& forall|i: int| 0 <= i < n ==> post.workspaces()[i] == self.workspaces()[i]
        }
    }

    /// Makes the workspace with this id the active one. If another one was active, its
    /// windows lose their activation and their clients are told.
    pub fn set_activated(&mut self, workspace_id: WorkspaceId) -> (out: Vec<Configure>)
        requires
            old(self).wf(),
            old(self).has_workspace(workspace_id),
        ensures
            final(self).wf(),
            final(self).activated() == Some(workspace_id),
            final(self).next_id() == old(self).next_id(),
            final(self).workspaces().len() == old(self).workspaces().len(),
            old(self).switched_away(final(self), true, out@),
    {
        let ghost before = self.workspaces@;
        let mut out: Vec<Configure> = Vec::new();
        if let Some(id) = self.activated_workspace {
            if id != workspace_id {
                let i = self.current_position();
                out = self.workspaces[i].deactivate();
                proof {
                    assert(self.workspaces@ =~= before.update(i as int, self.workspaces@[i as int]));
                    lemma_update_sound(before, Some(id), self.next_id, i as int, self.workspaces@[i as int]);
                }
                self.activated_workspace = Some(workspace_id);
            }
        } else {
            self.activated_workspace = Some(workspace_id);
        }
        proof {
            let c = old(self).index_of(workspace_id);
            assert(is_workspace(before, workspace_id, c));
            assert(self.workspaces@[c].ident() == before[c].ident());
            assert(is_workspace(self.workspaces@, workspace_id, c));
        }
        out
    }

    /// The active workspace.
    pub fn current_workspace(&self) -> (r: &Workspace)
        requires
            self.wf(),
            self.activated() is Some,
        ensures
            *r == self.current(),
            r.wf(),
    {
        let i = self.current_position();
        &self.workspaces[i]
    }

    /// The active workspace, to be changed in place. The manager stays sound as long as the
    /// workspace does and keeps its id.
    pub fn current_workspace_mut(&mut self) -> (r: &mut Workspace)
        requires
            old(self).wf(),
            old(self).activated() is Some,
        ensures
            *r == old(self).current(),
            r.wf(),
            final(self).workspaces() == old(self).workspaces().update(old(self).current_index(), *final(r)),
            final(self).activated() == old(self).activated(),
            final(self).next_id() == old(self).next_id(),
            final(r).wf() && final(r).ident() == r.ident() ==> final(self).wf(),
            final(r).wf() && final(r).ident() == r.ident() ==> final(self).same_but_current(old(self)),
    {
        let i = self.current_position();
        let ghost before = self.workspaces@;
        let ghost active = self.activated_workspace;
        let ghost next = self.next_id;
        proof {
            assert forall|w: Workspace|
                #![trigger before.update(i as int, w)]
                w.wf() && w.ident() == before[i as int].ident() implies sound(
                before.update(i as int, w),
                active,
                next,
            ) && same_but(before.update(i as int, w), before, active->0) by {
                lemma_update_sound(before, active, next, i as int, w);
                let k = index_in(before.update(i as int, w), active->0);
                assert(is_workspace(before, active->0, i as int));
                assert(is_workspace(before.update(i as int, w), active->0, i as int));
                if k != i {
                    assert(before.update(i as int, w)[k].ident() != before.update(i as int, w)[i as int].ident());
                }
            }
        }
        let r = &mut self.workspaces[i];
        r
    }

    /// Puts `window` on top of the active workspace at `location`.
    pub fn map_element(&mut self, window: Window, location: (i32, i32), activate: bool)
        requires
            old(self).wf(),
            old(self).activated() is Some,
        ensures
            final(self).wf(),
            final(self).same_but_current(old(self)),
            final(self).current().windows() == mapped(old(self).current().windows(), window, location, activate),
            final(self).current().same_but_windows(old(self).current()),
    {
        let i = self.current_position();
        self.workspaces[i].map_element(window, location, activate);
        proof {
            lemma_current_changed(
                old(self).workspaces@,
                self.workspaces@,
                self.activated_workspace,
                self.next_id,
                i as int,
            );
        }
    }

    /// Tiles `window` in the active workspace.
    pub fn map_tiled_element(
        &mut self,
        window: Window,
        focused_surface: Option<SurfaceId>,
        activate: bool,
    ) -> (r: Result<Vec<Configure>, LayoutError>)
        requires
            old(self).wf(),
            old(self).activated() is Some,
            !has_id(old(self).current().windows(), window.id),
            old(self).current().tile_count() < MAX_TILES,
            old(self).current().tree() is Some ==> old(self).current().scheme() == LayoutScheme::Default,
        ensures
            final(self).wf(),
            final(self).same_but_current(old(self)),
            old(self).current().tiled(final(self).current(), window, focused_surface, activate, r),
    {
        let i = self.current_position();
        let r = self.workspaces[i].map_tiled_element(window, focused_surface, activate);
        proof {
            lemma_current_changed(
                old(self).workspaces@,
                self.workspaces@,
                self.activated_workspace,
                self.next_id,
                i as int,
            );
        }
        r
    }

    /// Moves `window` to the top of the active workspace.
    pub fn raise_element(&mut self, window: &Window, activate: bool)
        requires
            old(self).wf(),
            old(self).activated() is Some,
        ensures
            final(self).wf(),
            final(self).same_but_current(old(self)),
            final(self).current().windows() == match position(old(self).current().windows(), window.id) {
                Some(i) => raised(old(self).current().windows(), i, activate),
                None => old(self).current().windows(),
            },
            final(self).current().same_but_windows(old(self).current()),
    {
        let i = self.current_position();
        self.workspaces[i].raise_element(window, activate);
        proof {
            lemma_current_changed(
                old(self).workspaces@,
                self.workspaces@,
                self.activated_workspace,
                self.next_id,
                i as int,
            );
        }
    }

    /// The topmost window of the active workspace whose rectangle holds the point.
    pub fn element_under(&self, px: i32, py: i32) -> (r: Option<(Window, (i32, i32))>)
        requires
            self.wf(),
            self.activated() is Some,
        ensures
            match hit(self.current().windows(), px as int, py as int) {
                Some(i) => r == Some(
                    (
                        self.current().windows()[i],
                        (self.current().windows()[i].rec.x, self.current().windows()[i].rec.y),
                    ),
                ),
                None => r is None,
            },
    {
        self.current_workspace().element_under(px, py)
    }

    /// Where `window` is mapped in the active workspace.
    pub fn element_location(&self, window: &Window) -> (r: Option<(i32, i32)>)
        requires
            self.wf(),
            self.activated() is Some,
        ensures
            match position(self.current().windows(), window.id) {
                Some(i) => r == Some((self.current().windows()[i].rec.x, self.current().windows()[i].rec.y)),
                None => r is None,
            },
    {
        self.current_workspace().element_location(window)
    }

    /// The rectangle that `window` fills in the active workspace.
    pub fn element_geometry(&self, window: &Window) -> (r: Option<Rect>)
        requires
            self.wf(),
            self.activated() is Some,
        ensures
            match position(self.current().windows(), window.id) {
                Some(i) => r == Some(self.current().windows()[i].rec),
                None => r is None,
            },
    {
        self.current_workspace().element_geometry(window)
    }

    /// The windows of the active workspace from the bottom one to the top one.
    pub fn elements(&self) -> (r: &Vec<Window>)
        requires
            self.wf(),
            self.activated() is Some,
        ensures
            r@ == self.current().windows(),
    {
        self.current_workspace().elements()
    }

    /// The window of the active workspace that `surface` resolves to. Other workspaces are
    /// not searched.
    pub fn find_window(&self, surface: &SurfaceId) -> (r: Option<Window>)
        requires
            self.wf(),
            self.activated() is Some,
        ensures
            match resolve(self.current().windows(), *surface) {
                Some(i) => r == Some(self.current().windows()[i]),
                None => r is None,
            },
    {
        let windows = self.current_workspace().elements();
        match find_surface(windows, *surface) {
            Some(i) => Some(windows[i]),
            None => None,
        }
    }

    /// Geometry of the output of the active workspace.
    pub fn output_geometry(&self) -> (r: Rect)
        requires
            self.wf(),
            self.activated() is Some,
        ensures
            r == self.current().output(),
    {
        self.current_workspace().output_geometry()
    }

    /// Removes the window of `surface` from the active workspace.
    pub fn remove_window(&mut self, surface: &SurfaceId) -> (r: Result<Vec<Configure>, LayoutError>)
        requires
            old(self).wf(),
            old(self).activated() is Some,
        ensures
            final(self).wf(),
            final(self).same_but_current(old(self)),
            old(self).current().removed(final(self).current(), *surface, r),
    {
        let i = self.current_position();
        let r = self.workspaces[i].remove_window(surface);
        proof {
            lemma_current_changed(
                old(self).workspaces@,
                self.workspaces@,
                self.activated_workspace,
                self.next_id,
                i as int,
            );
        }
        r
    }

    /// Swaps the sides of the split above the window of `focused_surface` in the active
    /// workspace.
    pub fn invert_window(
        &mut self,
        focused_surface: Option<SurfaceId>,
    ) -> (r: Result<Vec<Configure>, LayoutError>)
        requires
            old(self).wf(),
            old(self).activated() is Some,
        ensures
            final(self).wf(),
            final(self).same_but_current(old(self)),
            old(self).current().inverted(final(self).current(), focused_surface, r),
    {
        let i = self.current_position();
        let r = self.workspaces[i].invert_window(focused_surface);
        proof {
            lemma_current_changed(
                old(self).workspaces@,
                self.workspaces@,
                self.activated_workspace,
                self.next_id,
                i as int,
            );
        }
        r
    }

    /// Lays the tiles of the active workspace out anew for an output of geometry `rec`.
    pub fn modify_windows(&mut self, rec: Rect) -> (out: Vec<Configure>)
        requires
            old(self).wf(),
            old(self).activated() is Some,
            usable_output(rec),
        ensures
            final(self).wf(),
            final(self).same_but_current(old(self)),
            old(self).current().relaid(final(self).current(), rec, out@),
    {
        let i = self.current_position();
        let out = self.workspaces[i].modify_windows(rec);
        proof {
            lemma_current_changed(
                old(self).workspaces@,
                self.workspaces@,
                self.activated_workspace,
                self.next_id,
                i as int,
            );
        }
        out
    }

    /// One step of an interactive resize in the active workspace.
    pub fn resize(
        &mut self,
        focused_surface: Option<SurfaceId>,
        offset: (i32, i32),
    ) -> (r: Result<Vec<Configure>, LayoutError>)
        requires
            old(self).wf(),
            old(self).activated() is Some,
        ensures
            final(self).wf(),
            final(self).same_but_current(old(self)),
            old(self).current().resized(final(self).current(), focused_surface, offset, r),
    {
        let i = self.current_position();
        let r = self.workspaces[i].resize(focused_surface, offset);
        proof {
            lemma_current_changed(
                old(self).workspaces@,
                self.workspaces@,
                self.activated_workspace,
                self.next_id,
                i as int,
            );
        }
        r
    }

    /// Notes the window of `surface` as the focused one of the active workspace.
    pub fn set_focus(&mut self, surface: SurfaceId)
        requires
            old(self).wf(),
            old(self).activated() is Some,
        ensures
            final(self).wf(),
            final(self).same_but_current(old(self)),
            final(self).current().windows() == old(self).current().windows(),
            final(self).current().tree() == old(self).current().tree(),
            final(self).current().focus() == match resolve(old(self).current().windows(), surface) {
                Some(i) => Some(old(self).current().windows()[i].id),
                None => old(self).current().focus(),
            },
    {
        let i = self.current_position();
        self.workspaces[i].set_focus(surface);
        proof {
            lemma_current_changed(
                old(self).workspaces@,
                self.workspaces@,
                self.activated_workspace,
                self.next_id,
                i as int,
            );
        }
    }

    /// Moves `window` to the top of the active workspace, activates it and no other window,
    /// and tells every client.
    pub fn single_out(&mut self, window: &Window) -> (out: Vec<Configure>)
        requires
            old(self).wf(),
            old(self).activated() is Some,
        ensures
            final(self).wf(),
            final(self).same_but_current(old(self)),
            final(self).current().same_but_windows(old(self).current()),
            match position(old(self).current().windows(), window.id) {
                Some(i) => final(self).current().windows() == singled_out(old(self).current().windows(), i)
                    && out@ == configures(final(self).current().windows(), false),
                None => final(self).current().windows() == old(self).current().windows() && out@
                    == Seq::<Configure>::empty(),
            },
    {
        let i = self.current_position();
        let out = self.workspaces[i].single_out(window);
        proof {
            lemma_current_changed(
                old(self).workspaces@,
                self.workspaces@,
                self.activated_workspace,
                self.next_id,
                i as int,
            );
        }
        out
    }

    /// Puts every tiled window of the active workspace in the rectangle of its tile and
    /// tells every client its rectangle.
    pub fn send_pending_configure(&mut self) -> (out: Vec<Configure>)
        requires
            old(self).wf(),
            old(self).activated() is Some,
        ensures
            final(self).wf(),
            final(self).same_but_current(old(self)),
            final(self).current().windows() == placed(old(self).current().windows(), old(self).current().tree()),
            final(self).current().same_but_windows(old(self).current()),
            out@ == configures(final(self).current().windows(), false),
    {
        let i = self.current_position();
        let out = self.workspaces[i].send_pending_configure();
        proof {
            lemma_current_changed(
                old(self).workspaces@,
                self.workspaces@,
                self.activated_workspace,
                self.next_id,
                i as int,
            );
        }
        out
    }

    /// Sets the activation flag of every window of the active workspace and tells every
    /// client.
    pub fn set_all_activation(&mut self, activate: bool) -> (out: Vec<Configure>)
        requires
            old(self).wf(),
            old(self).activated() is Some,
        ensures
            final(self).wf(),
            final(self).same_but_current(old(self)),
            final(self).current().windows() == with_activation(old(self).current().windows(), activate),
            final(self).current().same_but_windows(old(self).current()),
            out@ == configures(final(self).current().windows(), false),
    {
        let i = self.current_position();
        let out = self.workspaces[i].set_all_activation(activate);
        proof {
            lemma_current_changed(
                old(self).workspaces@,
                self.workspaces@,
                self.activated_workspace,
                self.next_id,
                i as int,
            );
        }
        out
    }
}

} // verus!
