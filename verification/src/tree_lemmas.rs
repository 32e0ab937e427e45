//! Facts about the mathematical tiling tree that the arena-backed tree is proved from.

use vstd::prelude::*;
use crate::geometry::{
    first_half, lemma_halves_partition, lemma_shift_keeps_partitions, partitions, second_half, Rect,
};
use crate::node::{NodeData, NodeId};
use crate::tree::Tree;
use crate::window::WindowId;

verus! {

/// The entries of a tree are keyed by its handles, of which there are finitely many.
pub proof fn lemma_nodes_dom(t: Tree)
    ensures
        t.nodes().dom() == t.ids(),
        t.ids().finite(),
        t.ids().contains(t.id()),
        t.nodes()[t.id()] == t.entry(),
    decreases t,
{
    match t {
        Tree::Leaf { id, .. } => {
            assert(t.nodes().dom() =~= t.ids());
        },
        Tree::Split { id, left, right, .. } => {
            lemma_nodes_dom(*left);
            lemma_nodes_dom(*right);
            assert(t.nodes().dom() =~= t.ids());
        },
    }
}

/// A tree holds finitely many windows and at least one.
pub proof fn lemma_windows_finite(t: Tree)
    ensures
        t.windows().finite(),
        t.windows().len() >= 1,
        t.leaf_count() >= 1,
        t.height() >= 1,
    decreases t,
{
    match t {
        Tree::Leaf { window, .. } => {
            assert(t.windows().contains(window));
        },
        Tree::Split { left, right, .. } => {
            lemma_windows_finite(*left);
            lemma_windows_finite(*right);
            vstd::set_lib::lemma_len_subset(left.windows(), t.windows());
        },
    }
}

/// In a tree without repeated handles or windows there are as many windows as leaves, and
/// one node fewer than twice as many nodes; no path is longer than the number of leaves.
pub proof fn lemma_counts(t: Tree)
    requires
        t.well_formed(),
    ensures
        t.windows().finite(),
        t.windows().len() == t.leaf_count(),
        t.ids().finite(),
        t.ids().len() + 1 == 2 * t.leaf_count(),
        t.height() <= t.leaf_count(),
    decreases t,
{
    lemma_nodes_dom(t);
    lemma_windows_finite(t);
    match t {
        Tree::Leaf { id, window, .. } => {
            assert(t.windows() =~= Set::empty().insert(window));
            assert(t.ids() =~= Set::empty().insert(id));
        },
        Tree::Split { id, left, right, .. } => {
            lemma_counts(*left);
            lemma_counts(*right);
            lemma_windows_finite(*left);
            lemma_windows_finite(*right);
            vstd::set_lib::lemma_set_disjoint_lens(left.windows(), right.windows());
            vstd::set_lib::lemma_set_disjoint_lens(left.ids(), right.ids());
            assert(!left.ids().union(right.ids()).contains(id));
        },
    }
}

/// The subtree at a handle of the tree starts at that handle and is part of the tree.
pub proof fn lemma_subtree(t: Tree, k: NodeId)
    requires
        t.well_formed(),
        t.ids().contains(k),
    ensures
        t.subtree(k).id() == k,
        t.subtree(k).well_formed(),
        t.subtree(k).ids().subset_of(t.ids()),
        t.subtree(k).windows().subset_of(t.windows()),
        t.subtree(k).stored_in(t.nodes()),
        t.nodes()[k] == t.subtree(k).entry(),
        t.partitioned() ==> t.subtree(k).partitioned(),
    decreases t,
{
    lemma_nodes_dom(t);
    if t.id() != k {
        match t {
            Tree::Leaf { .. } => {},
            Tree::Split { id, left, right, .. } => {
                lemma_nodes_dom(*left);
                lemma_nodes_dom(*right);
                if left.ids().contains(k) {
                    lemma_subtree(*left, k);
                    lemma_nodes_dom(left.subtree(k));
                } else {
                    lemma_subtree(*right, k);
                    lemma_nodes_dom(right.subtree(k));
                }
            },
        }
    }
}

/// The leaf of a window of the tree is a node of the tree, and the arena stores the window
/// and its rectangle there.
pub proof fn lemma_leaf_of(t: Tree, w: WindowId)
    requires
        t.well_formed(),
        t.windows().contains(w),
    ensures
        t.ids().contains(t.leaf_of(w)),
        t.nodes()[t.leaf_of(w)] == (NodeData::Leaf { window: w, rec: t.rect_of(w) }),
        t.subtree(t.leaf_of(w)) == (Tree::Leaf { id: t.leaf_of(w), window: w, rec: t.rect_of(w) }),
    decreases t,
{
    lemma_nodes_dom(t);
    match t {
        Tree::Leaf { window, .. } => {
            assert(w == window);
        },
        Tree::Split { id, left, right, .. } => {
            lemma_nodes_dom(*left);
            lemma_nodes_dom(*right);
            if left.windows().contains(w) {
                lemma_leaf_of(*left, w);
            } else {
                lemma_leaf_of(*right, w);
            }
        },
    }
}

/// A leaf entry of the arena belongs to a window of the tree, and is that window's leaf.
pub proof fn lemma_leaf_entry(t: Tree, k: NodeId)
    requires
        t.well_formed(),
        t.ids().contains(k),
        t.nodes()[k] is Leaf,
    ensures
        t.windows().contains(t.nodes()[k]->window),
        t.leaf_of(t.nodes()[k]->window) == k,
        t.rect_of(t.nodes()[k]->window) == t.nodes()[k]->Leaf_rec,
    decreases t,
{
    lemma_nodes_dom(t);
    match t {
        Tree::Leaf { .. } => {},
        Tree::Split { id, left, right, .. } => {
            lemma_nodes_dom(*left);
            lemma_nodes_dom(*right);
            if left.ids().contains(k) {
                lemma_leaf_entry(*left, k);
            } else {
                lemma_leaf_entry(*right, k);
            }
        },
    }
}

/// Every node but the topmost is the child of a split of the tree.
pub proof fn lemma_parent_exists(t: Tree, k: NodeId)
    requires
        t.well_formed(),
        t.ids().contains(k),
        t.id() != k,
    ensures
        t.ids().contains(t.parent_id(k)),
        t.nodes()[t.parent_id(k)] is Split,
        t.nodes()[t.parent_id(k)]->left == k || t.nodes()[t.parent_id(k)]->right == k,
    decreases t,
{
    lemma_nodes_dom(t);
    match t {
        Tree::Leaf { .. } => {},
        Tree::Split { id, left, right, .. } => {
            lemma_nodes_dom(*left);
            lemma_nodes_dom(*right);
            if left.id() == k || right.id() == k {
            } else if left.ids().contains(k) {
                lemma_parent_exists(*left, k);
            } else {
                lemma_parent_exists(*right, k);
            }
        },
    }
}

/// A split entry that names `k` as a child is the one parent of `k`; the topmost node is
/// nobody's child.
pub proof fn lemma_parent_entry(t: Tree, p: NodeId, k: NodeId)
    requires
        t.well_formed(),
        t.ids().contains(p),
        t.nodes()[p] is Split,
        t.nodes()[p]->left == k || t.nodes()[p]->right == k,
    ensures
        t.ids().contains(k),
        t.id() != k,
        t.parent_id(k) == p,
        t.subtree(p) is Split,
        t.subtree(p)->left.id() == t.nodes()[p]->left,
        t.subtree(p)->right.id() == t.nodes()[p]->right,
        t.nodes()[p]->left != t.nodes()[p]->right,
        *t.subtree(p)->left == t.subtree(t.nodes()[p]->left),
        *t.subtree(p)->right == t.subtree(t.nodes()[p]->right),
    decreases t,
{
    lemma_nodes_dom(t);
    match t {
        Tree::Leaf { .. } => {},
        Tree::Split { id, left, right, .. } => {
            lemma_nodes_dom(*left);
            lemma_nodes_dom(*right);
            if p == id {
                assert(left.subtree(left.id()) == *left);
                assert(right.subtree(right.id()) == *right);
            } else if left.ids().contains(p) {
                lemma_parent_entry(*left, p, k);
                lemma_subtree(*left, p);
                lemma_nodes_dom(*left.subtree(p)->left);
                lemma_nodes_dom(*left.subtree(p)->right);
                lemma_nodes_dom(left.subtree(p));
                assert(left.ids().contains(left.nodes()[p]->left));
                assert(left.ids().contains(left.nodes()[p]->right));
            } else {
                lemma_parent_entry(*right, p, k);
                lemma_subtree(*right, p);
                lemma_nodes_dom(*right.subtree(p)->left);
                lemma_nodes_dom(*right.subtree(p)->right);
                lemma_nodes_dom(right.subtree(p));
                assert(right.ids().contains(right.nodes()[p]->left));
                assert(right.ids().contains(right.nodes()[p]->right));
            }
        },
    }
}

/// What exchanging a subtree does: the handles, windows and entries of the old subtree go,
/// those of the new one come, and nothing else changes. The new subtree must start at the
/// same handle and must not reuse a handle or a window of the rest of the tree.
pub proof fn lemma_replace(t: Tree, k: NodeId, sub: Tree)
    requires
        t.well_formed(),
        t.ids().contains(k),
        sub.well_formed(),
        sub.id() == k,
        forall|i: NodeId| sub.ids().contains(i) && t.ids().contains(i) ==> t.subtree(k).ids().contains(i),
        forall|w: WindowId| sub.windows().contains(w) && t.windows().contains(w) ==> t.subtree(k).windows().contains(w),
    ensures
        t.replace(k, sub).well_formed(),
        t.replace(k, sub).id() == t.id(),
        t.replace(k, sub).ids() == t.ids().difference(t.subtree(k).ids()).union(sub.ids()),
        t.replace(k, sub).windows() == t.windows().difference(t.subtree(k).windows()).union(sub.windows()),
        t.replace(k, sub).nodes() == t.nodes().remove_keys(t.subtree(k).ids()).union_prefer_right(sub.nodes()),
        t.replace(k, sub).subtree(k) == sub,
        sub.rect() == t.subtree(k).rect() ==> t.replace(k, sub).rect() == t.rect(),
        t.partitioned() && sub.partitioned() && sub.rect() == t.subtree(k).rect() ==> t.replace(k, sub).partitioned(),
    decreases t,
{
    lemma_nodes_dom(t);
    lemma_nodes_dom(sub);
    lemma_subtree(t, k);
    let r = t.replace(k, sub);
    let s = t.subtree(k);
    if t.id() == k {
        assert(r.ids() =~= t.ids().difference(s.ids()).union(sub.ids()));
        assert(r.windows() =~= t.windows().difference(s.windows()).union(sub.windows()));
        assert(r.nodes() =~= t.nodes().remove_keys(s.ids()).union_prefer_right(sub.nodes()));
    } else {
        match t {
            Tree::Leaf { .. } => {},
            Tree::Split { id, direction, rec, left, right } => {
                lemma_nodes_dom(*left);
                lemma_nodes_dom(*right);
                if left.ids().contains(k) {
                    lemma_subtree(*left, k);
                    lemma_replace(*left, k, sub);
                    let l2 = left.replace(k, sub);
                    lemma_nodes_dom(l2);
                    assert(r.ids() =~= t.ids().difference(s.ids()).union(sub.ids()));
                    assert(r.windows() =~= t.windows().difference(s.windows()).union(sub.windows()));
                    assert(r.nodes() =~= t.nodes().remove_keys(s.ids()).union_prefer_right(sub.nodes()));
                } else {
                    lemma_subtree(*right, k);
                    lemma_replace(*right, k, sub);
                    let r2 = right.replace(k, sub);
                    lemma_nodes_dom(r2);
                    assert(r.ids() =~= t.ids().difference(s.ids()).union(sub.ids()));
                    assert(r.windows() =~= t.windows().difference(s.windows()).union(sub.windows()));
                    assert(r.nodes() =~= t.nodes().remove_keys(s.ids()).union_prefer_right(sub.nodes()));
                }
            },
        }
    }
}

/// Laying a tree out anew changes rectangles only: handles, windows, directions and the
/// shape stay, and the topmost node covers the rectangle given.
pub proof fn lemma_laid_out(t: Tree, rect: Rect)
    ensures
        t.laid_out(rect).id() == t.id(),
        t.laid_out(rect).rect() == rect,
        t.laid_out(rect).ids() == t.ids(),
        t.laid_out(rect).windows() == t.windows(),
        t.laid_out(rect).leaf_count() == t.leaf_count(),
        t.laid_out(rect).height() == t.height(),
        t.well_formed() ==> t.laid_out(rect).well_formed(),
        forall|other: Rect| t.laid_out(rect).fits(other) == t.fits(other),
    decreases t,
{
    match t {
        Tree::Leaf { .. } => {},
        Tree::Split { direction, left, right, .. } => {
            lemma_laid_out(*left, first_half(rect, direction));
            lemma_laid_out(*right, second_half(rect, direction));
            assert forall|other: Rect| t.laid_out(rect).fits(other) == t.fits(other) by {
                lemma_fits_ignores_rects(*left, first_half(rect, direction), first_half(other, direction));
                lemma_fits_ignores_rects(*right, second_half(rect, direction), second_half(other, direction));
            }
        },
    }
}

/// Whether a layout fits depends on the shape and the directions of a tree, not on the
/// rectangles it holds at the moment.
pub proof fn lemma_fits_ignores_rects(t: Tree, rect: Rect, other: Rect)
    ensures
        t.laid_out(rect).fits(other) == t.fits(other),
    decreases t,
{
    match t {
        Tree::Leaf { .. } => {},
        Tree::Split { direction, left, right, .. } => {
            lemma_fits_ignores_rects(*left, first_half(rect, direction), first_half(other, direction));
            lemma_fits_ignores_rects(*right, second_half(rect, direction), second_half(other, direction));
        },
    }
}

/// A layout that fits tiles every split by its two halves.
pub proof fn lemma_laid_out_partitioned(t: Tree, rect: Rect)
    requires
        t.fits(rect),
    ensures
        t.laid_out(rect).partitioned(),
    decreases t,
{
    match t {
        Tree::Leaf { .. } => {},
        Tree::Split { direction, left, right, .. } => {
            lemma_laid_out(*left, first_half(rect, direction));
            lemma_laid_out(*right, second_half(rect, direction));
            lemma_laid_out_partitioned(*left, first_half(rect, direction));
            lemma_laid_out_partitioned(*right, second_half(rect, direction));
            lemma_halves_partition(rect, direction);
        },
    }
}

/// Laying a tree out twice in the same rectangle gives what laying it out once gives.
pub proof fn lemma_laid_out_idempotent(t: Tree, rect: Rect)
    ensures
        t.laid_out(rect).laid_out(rect) == t.laid_out(rect),
    decreases t,
{
    match t {
        Tree::Leaf { .. } => {},
        Tree::Split { direction, left, right, .. } => {
            lemma_laid_out_idempotent(*left, first_half(rect, direction));
            lemma_laid_out_idempotent(*right, second_half(rect, direction));
        },
    }
}

/// The children of a split of the tree are themselves stored with the tree, apart from
/// each other.
pub proof fn lemma_split_children(t: Tree, p: NodeId)
    requires
        t.well_formed(),
        t.ids().contains(p),
        t.subtree(p) is Split,
    ensures
        t.subtree(p)->left.well_formed(),
        t.subtree(p)->right.well_formed(),
        t.subtree(p)->left.stored_in(t.nodes()),
        t.subtree(p)->right.stored_in(t.nodes()),
        t.subtree(p)->left.ids().disjoint(t.subtree(p)->right.ids()),
        !t.subtree(p)->left.ids().contains(p),
        !t.subtree(p)->right.ids().contains(p),
        t.nodes()[p] == t.subtree(p).entry(),
        t.nodes()[t.subtree(p)->left.id()] == t.subtree(p)->left.entry(),
        t.nodes()[t.subtree(p)->right.id()] == t.subtree(p)->right.entry(),
        t.nodes().dom().contains(t.subtree(p)->left.id()),
        t.nodes().dom().contains(t.subtree(p)->right.id()),
        t.partitioned() ==> t.subtree(p).partitioned(),
{
    let parent = t.subtree(p);
    let l = *parent->left;
    let r = *parent->right;
    lemma_nodes_dom(t);
    lemma_subtree(t, p);
    lemma_nodes_dom(parent);
    lemma_nodes_dom(l);
    lemma_nodes_dom(r);
    assert forall|k: NodeId| #[trigger] l.nodes().dom().contains(k) implies t.nodes().dom().contains(k)
        && t.nodes()[k] == l.nodes()[k] by {
        assert(parent.nodes().dom().contains(k));
    }
    assert forall|k: NodeId| #[trigger] r.nodes().dom().contains(k) implies t.nodes().dom().contains(k)
        && t.nodes()[k] == r.nodes()[k] by {
        assert(parent.nodes().dom().contains(k));
    }
    assert(parent.nodes().dom().contains(l.id()));
    assert(parent.nodes().dom().contains(r.id()));
}

/// Moving the boundary of a split of the tree keeps the tree sound, and changes the arena
/// only where the two sides of the split are stored.
pub proof fn lemma_boundary_moved(t: Tree, p: NodeId, delta: int)
    requires
        t.well_formed(),
        t.partitioned(),
        t.ids().contains(p),
        t.subtree(p) is Split,
        t.subtree(p).boundary_move_fits(delta),
    ensures
        ({
            let parent = t.subtree(p);
            let sub = parent.with_boundary_moved(delta);
            let t2 = t.replace(p, sub);
            &&& t2.well_formed()
            &&& t2.partitioned()
            &&& t2.id() == t.id()
            &&& t2.ids() == t.ids()
            &&& t2.windows() == t.windows()
            &&& t2.nodes() == t.nodes().union_prefer_right(sub->left.nodes()).union_prefer_right(
                sub->right.nodes(),
            )
        }),
{
    let parent = t.subtree(p);
    let l = *parent->left;
    let r = *parent->right;
    let d = parent->direction;
    let rec = parent.rect();
    let l_new = parent.left_after_shift(delta);
    let r_new = parent.right_after_shift(delta);
    let sub = parent.with_boundary_moved(delta);
    let l2 = l.laid_out(l_new);
    let r2 = r.laid_out(r_new);
    lemma_split_children(t, p);
    lemma_nodes_dom(t);
    lemma_subtree(t, p);
    lemma_nodes_dom(parent);
    lemma_nodes_dom(l);
    lemma_nodes_dom(r);
    lemma_laid_out(l, l_new);
    lemma_laid_out(r, r_new);
    lemma_laid_out_partitioned(l, l_new);
    lemma_laid_out_partitioned(r, r_new);
    lemma_nodes_dom(l2);
    lemma_nodes_dom(r2);
    assert(partitions(l_new, r_new, rec, d)) by {
        if parent.left_first() {
            lemma_shift_keeps_partitions(l.rect(), r.rect(), rec, d, delta);
        } else {
            lemma_shift_keeps_partitions(r.rect(), l.rect(), rec, d, delta);
        }
    }
    assert(sub.ids() =~= parent.ids());
    assert(sub.windows() =~= parent.windows());
    assert(sub.well_formed());
    assert(sub.partitioned());
    lemma_nodes_dom(sub);
    lemma_replace(t, p, sub);
    let t2 = t.replace(p, sub);
    assert(t2.ids() =~= t.ids());
    assert(t2.windows() =~= t.windows());
    assert(t2.nodes() =~= t.nodes().union_prefer_right(l2.nodes()).union_prefer_right(r2.nodes()));
}

} // verus!
