//! The z-order list of a workspace: its windows from the bottom one to the top one, and the
//! configure messages that tell clients about them.

use vstd::prelude::*;
use crate::geometry::Rect;
use crate::tree::Tree;
use crate::window::{SurfaceId, Window, WindowId};

verus! {

/// A message for the client of one window: the rectangle and state it is to take on.
#[derive(Clone, Copy, Debug, PartialEq, Eq, Structural)]
pub struct Configure {
    pub surface: SurfaceId,
    pub rec: Rect,
    pub activated: bool,
    /// Hint that an interactive resize is under way.
    pub resizing: bool,
}

/// No two windows of the list have the same id.
pub open spec fn distinct_ids(ws: Seq<Window>) -> bool {
    forall|i: int, j: int| 0 <= i < j < ws.len() ==> ws[i].id != ws[j].id
}

/// Some window of the list has this id.
pub open spec fn has_id(ws: Seq<Window>, id: WindowId) -> bool {
    exists|i: int| 0 <= i < ws.len() && ws[i].id == id
}

/// `i` is the lowest position of a window with this id.
pub open spec fn is_position(ws: Seq<Window>, id: WindowId, i: int) -> bool {
    &&& 0 <= i < ws.len()
    &&& ws[i].id == id
    &&& forall|j: int| 0 <= j < i ==> ws[j].id != id
}

/// Lowest position of a window with this id, if there is one.
pub open spec fn position(ws: Seq<Window>, id: WindowId) -> Option<int> {
    if exists|i: int| is_position(ws, id, i) {
        Some(choose|i: int| is_position(ws, id, i))
    } else {
        None
    }
}

/// `i` is the lowest position of a window with this surface.
pub open spec fn is_resolved(ws: Seq<Window>, surface: SurfaceId, i: int) -> bool {
    &&& 0 <= i < ws.len()
    &&& ws[i].surface == surface
    &&& forall|j: int| 0 <= j < i ==> ws[j].surface != surface
}

/// Lowest position of a window with this surface, if there is one: the window that the
/// surface resolves to.
pub open spec fn resolve(ws: Seq<Window>, surface: SurfaceId) -> Option<int> {
    if exists|i: int| is_resolved(ws, surface, i) {
        Some(choose|i: int| is_resolved(ws, surface, i))
    } else {
        None
    }
}

/// `i` is the topmost position of a window whose rectangle holds the point.
pub open spec fn is_hit(ws: Seq<Window>, px: int, py: int, i: int) -> bool {
    &&& 0 <= i < ws.len()
    &&& ws[i].rec.contains(px, py)
    &&& forall|j: int| i < j < ws.len() ==> !ws[j].rec.contains(px, py)
}

/// Topmost position of a window whose rectangle holds the point, if there is one.
pub open spec fn hit(ws: Seq<Window>, px: int, py: int) -> Option<int> {
    if exists|i: int| is_hit(ws, px, py, i) {
        Some(choose|i: int| is_hit(ws, px, py, i))
    } else {
        None
    }
}

/// The window with its activation flag set if `activate` asks for it.
pub open spec fn activated_if(w: Window, activate: bool) -> Window {
    Window { activated: w.activated || activate, ..w }
}

/// The window moved to a location, its size kept.
pub open spec fn moved_to(w: Window, location: (i32, i32)) -> Window {
    Window { rec: Rect { x: location.0, y: location.1, w: w.rec.w, h: w.rec.h }, ..w }
}

/// The list with the window at `i` moved to the top.
pub open spec fn raised(ws: Seq<Window>, i: int, activate: bool) -> Seq<Window> {
    ws.remove(i).push(activated_if(ws[i], activate))
}

/// The list without any window of this id.
pub open spec fn unmapped(ws: Seq<Window>, id: WindowId) -> Seq<Window> {
    match position(ws, id) {
        Some(i) => ws.remove(i),
        None => ws,
    }
}

/// The list with `w` on top, at `location`, in place of an earlier window of the same id.
pub open spec fn mapped(
    ws: Seq<Window>,
    w: Window,
    location: (i32, i32),
    activate: bool,
) -> Seq<Window> {
    unmapped(ws, w.id).push(activated_if(moved_to(w, location), activate))
}

/// The window with the rectangle of its tile, if the tree has a tile for it.
pub open spec fn place_one(w: Window, tree: Option<Tree>) -> Window {
    match tree {
        Some(t) => if t.windows().contains(w.id) {
            Window { rec: t.rect_of(w.id), ..w }
        } else {
            w
        },
        None => w,
    }
}

/// The list with every tiled window in the rectangle of its tile.
pub open spec fn placed(ws: Seq<Window>, tree: Option<Tree>) -> Seq<Window> {
    Seq::new(ws.len(), |i: int| place_one(ws[i], tree))
}

/// The list with the activation flag of every window set to `activate`.
pub open spec fn with_activation(ws: Seq<Window>, activate: bool) -> Seq<Window> {
    Seq::new(ws.len(), |i: int| Window { activated: activate, ..ws[i] })
}

/// The list with the activation flag cleared on every window but the one at `keep`.
pub open spec fn only_active(ws: Seq<Window>, keep: int) -> Seq<Window> {
    Seq::new(ws.len(), |i: int| Window { activated: ws[i].activated && i == keep, ..ws[i] })
}

/// The list with the window at `i` on top and activated, and no other window activated.
pub open spec fn singled_out(ws: Seq<Window>, i: int) -> Seq<Window> {
    only_active(raised(ws, i, true), ws.len() - 1)
}

/// The message that tells a window's client about the window.
pub open spec fn configure_of(w: Window, resizing: bool) -> Configure {
    Configure { surface: w.surface, rec: w.rec, activated: w.activated, resizing }
}

/// One message per window, from the bottom window to the top one.
pub open spec fn configures(ws: Seq<Window>, resizing: bool) -> Seq<Configure> {
    Seq::new(ws.len(), |i: int| configure_of(ws[i], resizing))
}

/// A list has at most one lowest position for an id.
pub proof fn lemma_position_unique(ws: Seq<Window>, id: WindowId, i: int)
    requires
        is_position(ws, id, i),
    ensures
        position(ws, id) == Some(i),
{
    let c = choose|c: int| is_position(ws, id, c);
    assert(c == i) by {
        if c < i {
        } else if i < c {
        }
    }
}

/// A surface resolves to at most one position.
pub proof fn lemma_resolve_unique(ws: Seq<Window>, surface: SurfaceId, i: int)
    requires
        is_resolved(ws, surface, i),
    ensures
        resolve(ws, surface) == Some(i),
{
    let c = choose|c: int| is_resolved(ws, surface, c);
    assert(c == i) by {
        if c < i {
        } else if i < c {
        }
    }
}

/// A point hits at most one position.
pub proof fn lemma_hit_unique(ws: Seq<Window>, px: int, py: int, i: int)
    requires
        is_hit(ws, px, py, i),
    ensures
        hit(ws, px, py) == Some(i),
{
    let c = choose|c: int| is_hit(ws, px, py, c);
    assert(c == i) by {
        if c < i {
        } else if i < c {
        }
    }
}

/// Looks for the lowest window with this id.
pub fn find_id(ws: &Vec<Window>, id: WindowId) -> (r: Option<usize>)
    ensures
        r is Some == has_id(ws@, id),
        match r {
            Some(i) => position(ws@, id) == Some(i as int),
            None => position(ws@, id) is None,
        },
{
    let mut i: usize = 0;
    while i < ws.len()
        invariant
            0 <= i <= ws.len(),
            forall|j: int| 0 <= j < i ==> ws@[j].id != id,
        decreases ws.len() - i,
    {
        if ws[i].id == id {
            proof {
                lemma_position_unique(ws@, id, i as int);
            }
            return Some(i);
        }
        i += 1;
    }
    None
}

/// Looks for the window that a surface resolves to: the lowest one with that surface.
pub fn find_surface(ws: &Vec<Window>, surface: SurfaceId) -> (r: Option<usize>)
    ensures
        match r {
            Some(i) => resolve(ws@, surface) == Some(i as int) && i < ws.len() && ws@[i as int].surface
                == surface,
            None => resolve(ws@, surface) is None,
        },
{
    let mut i: usize = 0;
    while i < ws.len()
        invariant
            0 <= i <= ws.len(),
            forall|j: int| 0 <= j < i ==> ws@[j].surface != surface,
        decreases ws.len() - i,
    {
        if ws[i].surface == surface {
            proof {
                lemma_resolve_unique(ws@, surface, i as int);
            }
            return Some(i);
        }
        i += 1;
    }
    None
}

/// Looks for the topmost window whose rectangle holds the point.
pub fn find_under(ws: &Vec<Window>, px: i32, py: i32) -> (r: Option<usize>)
    ensures
        match r {
            Some(i) => hit(ws@, px as int, py as int) == Some(i as int) && i < ws.len(),
            None => hit(ws@, px as int, py as int) is None,
        },
{
    let mut i: usize = ws.len();
    while i > 0
        invariant
            0 <= i <= ws.len(),
            forall|j: int| i <= j < ws.len() ==> !ws@[j].rec.contains(px as int, py as int),
        decreases i,
    {
        i -= 1;
        if ws[i].rec.contains_point(px, py) {
            proof {
                lemma_hit_unique(ws@, px as int, py as int, i as int);
            }
            return Some(i);
        }
    }
    None
}

/// The configure messages for all windows of the list.
pub fn configure_all(ws: &Vec<Window>, resizing: bool) -> (out: Vec<Configure>)
    ensures
        out@ == configures(ws@, resizing),
{
    let mut out: Vec<Configure> = Vec::new();
    let mut i: usize = 0;
    while i < ws.len()
        invariant
            0 <= i <= ws.len(),
            out@.len() == i,
            forall|j: int| 0 <= j < i ==> out@[j] == configure_of(ws@[j], resizing),
        decreases ws.len() - i,
    {
        let w = ws[i];
        out.push(Configure { surface: w.surface, rec: w.rec, activated: w.activated, resizing });
        i += 1;
    }
    assert(out@ =~= configures(ws@, resizing));
    out
}

/// Sets the activation flag of every window of the list.
pub fn set_activation(ws: &mut Vec<Window>, activate: bool)
    ensures
        final(ws)@ == with_activation(old(ws)@, activate),
{
    let mut i: usize = 0;
    while i < ws.len()
        invariant
            0 <= i <= ws.len(),
            ws@.len() == old(ws)@.len(),
            forall|j: int| 0 <= j < i ==> ws@[j] == (Window { activated: activate, ..old(ws)@[j] }),
            forall|j: int| i <= j < ws.len() ==> ws@[j] == old(ws)@[j],
        decreases ws.len() - i,
    {
        let w = ws[i];
        ws.set(i, Window { activated: activate, ..w });
        i += 1;
    }
    assert(ws@ =~= with_activation(old(ws)@, activate));
}

/// Clears the activation flag on every window but the one at `keep`.
pub fn clear_others(ws: &mut Vec<Window>, keep: usize)
    ensures
        final(ws)@ == only_active(old(ws)@, keep as int),
{
    let mut i: usize = 0;
    while i < ws.len()
        invariant
            0 <= i <= ws.len(),
            ws@.len() == old(ws)@.len(),
            forall|j: int|
                0 <= j < i ==> ws@[j] == (Window {
                    activated: old(ws)@[j].activated && j == keep,
                    ..old(ws)@[j]
                }),
            forall|j: int| i <= j < ws.len() ==> ws@[j] == old(ws)@[j],
        decreases ws.len() - i,
    {
        if i != keep {
            let w = ws[i];
            ws.set(i, Window { activated: false, ..w });
        }
        i += 1;
    }
    assert(ws@ =~= only_active(old(ws)@, keep as int));
}

/// Moves the window at `i` to the top of the list.
pub fn raise_at(ws: &mut Vec<Window>, i: usize, activate: bool)
    requires
        i < old(ws)@.len(),
    ensures
        final(ws)@ == raised(old(ws)@, i as int, activate),
{
    let w = ws.remove(i);
    ws.push(Window { activated: w.activated || activate, ..w });
}

/// Placing windows in their tiles changes rectangles only, and only of tiled windows.
pub proof fn lemma_placed(ws: Seq<Window>, tree: Option<Tree>)
    ensures
        placed(ws, tree).len() == ws.len(),
        forall|i: int| 0 <= i < ws.len() ==> (#[trigger] placed(ws, tree)[i]).id == ws[i].id,
        forall|id: WindowId| has_id(placed(ws, tree), id) == has_id(ws, id),
        distinct_ids(ws) ==> distinct_ids(placed(ws, tree)),
        tree is None ==> placed(ws, tree) == ws,
{
    let ps = placed(ws, tree);
    assert forall|id: WindowId| has_id(ps, id) == has_id(ws, id) by {
        if has_id(ps, id) {
            let i = choose|i: int| 0 <= i < ps.len() && ps[i].id == id;
            assert(ws[i].id == id);
        }
        if has_id(ws, id) {
            let i = choose|i: int| 0 <= i < ws.len() && ws[i].id == id;
            assert(ps[i].id == id);
        }
    }
    if tree is None {
        assert(ps =~= ws);
    }
}

/// Placing windows in their tiles a second time changes nothing.
pub proof fn lemma_placed_twice(ws: Seq<Window>, tree: Option<Tree>)
    ensures
        placed(placed(ws, tree), tree) == placed(ws, tree),
{
    assert(placed(placed(ws, tree), tree) =~= placed(ws, tree));
}

/// Taking the window at `i` out of a list without repeated ids takes its id out and leaves
/// every other id in.
pub proof fn lemma_remove_ids(ws: Seq<Window>, i: int)
    requires
        distinct_ids(ws),
        0 <= i < ws.len(),
    ensures
        distinct_ids(ws.remove(i)),
        !has_id(ws.remove(i), ws[i].id),
        forall|id: WindowId| id != ws[i].id ==> has_id(ws.remove(i), id) == has_id(ws, id),
{
    let rs = ws.remove(i);
    assert forall|a: int, b: int| 0 <= a < b < rs.len() implies rs[a].id != rs[b].id by {
        let a2 = if a < i { a } else { a + 1 };
        let b2 = if b < i { b } else { b + 1 };
        assert(rs[a] == ws[a2] && rs[b] == ws[b2]);
    }
    if has_id(rs, ws[i].id) {
        let a = choose|a: int| 0 <= a < rs.len() && rs[a].id == ws[i].id;
        let a2 = if a < i { a } else { a + 1 };
        assert(rs[a] == ws[a2]);
    }
    assert forall|id: WindowId| id != ws[i].id implies has_id(rs, id) == has_id(ws, id) by {
        if has_id(rs, id) {
            let a = choose|a: int| 0 <= a < rs.len() && rs[a].id == id;
            let a2 = if a < i { a } else { a + 1 };
            assert(rs[a] == ws[a2]);
        }
        if has_id(ws, id) {
            let a = choose|a: int| 0 <= a < ws.len() && ws[a].id == id;
            let a2 = if a < i { a } else { a - 1 };
            assert(rs[a2] == ws[a]);
        }
    }
}

/// Putting a window on top of a list that lacks its id adds that id and keeps the others.
pub proof fn lemma_push_ids(ws: Seq<Window>, w: Window)
    requires
        distinct_ids(ws),
        !has_id(ws, w.id),
    ensures
        distinct_ids(ws.push(w)),
        forall|id: WindowId| has_id(ws.push(w), id) == (id == w.id || has_id(ws, id)),
{
    let ps = ws.push(w);
    assert forall|a: int, b: int| 0 <= a < b < ps.len() implies ps[a].id != ps[b].id by {
        if b == ws.len() {
            assert(ps[a] == ws[a]);
        }
    }
    assert forall|id: WindowId| has_id(ps, id) == (id == w.id || has_id(ws, id)) by {
        if has_id(ps, id) {
            let a = choose|a: int| 0 <= a < ps.len() && ps[a].id == id;
            if a < ws.len() {
                assert(ps[a] == ws[a]);
            }
        }
        if has_id(ws, id) {
            let a = choose|a: int| 0 <= a < ws.len() && ws[a].id == id;
            assert(ps[a] == ws[a]);
        }
        if id == w.id {
            assert(ps[ws.len() as int].id == id);
        }
    }
}

/// A window of the list is found by its id.
pub proof fn lemma_position(ws: Seq<Window>, id: WindowId)
    ensures
        position(ws, id) is Some == has_id(ws, id),
        position(ws, id) matches Some(i) ==> 0 <= i < ws.len() && ws[i].id == id,
        distinct_ids(ws) ==> forall|i: int| 0 <= i < ws.len() && ws[i].id == id ==> position(ws, id) == Some(i),
{
    if has_id(ws, id) {
        let a = choose|a: int| 0 <= a < ws.len() && ws[a].id == id;
        lemma_first_below(ws, id, a);
    }
    if distinct_ids(ws) {
        assert forall|i: int| 0 <= i < ws.len() && ws[i].id == id implies position(ws, id) == Some(i) by {
            lemma_position_unique(ws, id, i);
        }
    }
}

/// Below any window with an id there is a lowest one.
proof fn lemma_first_below(ws: Seq<Window>, id: WindowId, a: int)
    requires
        0 <= a < ws.len(),
        ws[a].id == id,
    ensures
        exists|i: int| is_position(ws, id, i),
    decreases a,
{
    if forall|j: int| 0 <= j < a ==> ws[j].id != id {
        assert(is_position(ws, id, a));
    } else {
        let j = choose|j: int| 0 <= j < a && ws[j].id == id;
        lemma_first_below(ws, id, j);
    }
}

/// Changing activation flags changes no id.
pub proof fn lemma_only_active_ids(ws: Seq<Window>, keep: int)
    ensures
        only_active(ws, keep).len() == ws.len(),
        forall|id: WindowId| has_id(only_active(ws, keep), id) == has_id(ws, id),
        distinct_ids(ws) ==> distinct_ids(only_active(ws, keep)),
{
    let after = only_active(ws, keep);
    assert forall|id: WindowId| has_id(after, id) == has_id(ws, id) by {
        if has_id(after, id) {
            let i = choose|i: int| 0 <= i < after.len() && after[i].id == id;
            assert(ws[i].id == id);
        }
        if has_id(ws, id) {
            let i = choose|i: int| 0 <= i < ws.len() && ws[i].id == id;
            assert(after[i].id == id);
        }
    }
}

} // verus!
