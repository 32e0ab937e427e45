//! Laws of the tiling tree, stated over the mathematical tree and proved once and for all.

use vstd::prelude::*;
use crate::geometry::{
    adjacent, bounded, first_half, lemma_halves_bounded, lemma_halves_partition,
    lemma_partition_disjoint, lemma_shift_bounded, partitions, second_half, split_direction,
    split_fits, Direction, Rect, COORD_BOUND, GAP,
};
use crate::node::NodeId;
use crate::tree::Tree;
use crate::tree_lemmas::{
    lemma_counts, lemma_laid_out, lemma_laid_out_idempotent, lemma_leaf_of, lemma_nodes_dom,
    lemma_replace, lemma_subtree, lemma_windows_finite,
};
use crate::window::WindowId;

verus! {

/// Exchanging a subtree leaves every leaf outside it where it was, and puts the leaves of the
/// new subtree where they are in the new subtree.
pub proof fn lemma_replace_leaves(t: Tree, k: NodeId, sub: Tree, w: WindowId)
    requires
        t.well_formed(),
        t.ids().contains(k),
        sub.id() == k,
        forall|v: WindowId| sub.windows().contains(v) && t.windows().contains(v) ==> t.subtree(k).windows().contains(v),
    ensures
        t.replace(k, sub).leaf_count() + t.subtree(k).leaf_count() == t.leaf_count() + sub.leaf_count(),
        sub.windows().contains(w) ==> {
            &&& t.replace(k, sub).rect_of(w) == sub.rect_of(w)
            &&& t.replace(k, sub).leaf_of(w) == sub.leaf_of(w)
        },
        t.windows().contains(w) && !t.subtree(k).windows().contains(w) ==> {
            &&& t.replace(k, sub).rect_of(w) == t.rect_of(w)
            &&& t.replace(k, sub).leaf_of(w) == t.leaf_of(w)
        },
    decreases t,
{
    lemma_nodes_dom(t);
    if t.id() != k {
        match t {
            Tree::Leaf { .. } => {},
            Tree::Split { left, right, .. } => {
                lemma_nodes_dom(*left);
                lemma_nodes_dom(*right);
                if left.ids().contains(k) {
                    lemma_subtree(*left, k);
                    lemma_replace_leaves(*left, k, sub, w);
                    lemma_replace_windows(*left, k, sub);
                } else {
                    lemma_subtree(*right, k);
                    lemma_replace_leaves(*right, k, sub, w);
                    lemma_replace_windows(*right, k, sub);
                }
            },
        }
    }
}

/// The windows of a tree after a subtree was exchanged.
pub proof fn lemma_replace_windows(t: Tree, k: NodeId, sub: Tree)
    requires
        t.well_formed(),
        t.ids().contains(k),
        sub.id() == k,
    ensures
        t.replace(k, sub).windows() == t.windows().difference(t.subtree(k).windows()).union(sub.windows()),
        t.replace(k, sub).ids() == t.ids().difference(t.subtree(k).ids()).union(sub.ids()),
    decreases t,
{
    lemma_nodes_dom(t);
    lemma_subtree(t, k);
    let r = t.replace(k, sub);
    let s = t.subtree(k);
    if t.id() == k {
        assert(r.windows() =~= t.windows().difference(s.windows()).union(sub.windows()));
        assert(r.ids() =~= t.ids().difference(s.ids()).union(sub.ids()));
    } else {
        match t {
            Tree::Leaf { .. } => {},
            Tree::Split { left, right, .. } => {
                lemma_nodes_dom(*left);
                lemma_nodes_dom(*right);
                if left.ids().contains(k) {
                    lemma_subtree(*left, k);
                    lemma_replace_windows(*left, k, sub);
                } else {
                    lemma_subtree(*right, k);
                    lemma_replace_windows(*right, k, sub);
                }
                assert(r.windows() =~= t.windows().difference(s.windows()).union(sub.windows()));
                assert(r.ids() =~= t.ids().difference(s.ids()).union(sub.ids()));
            },
        }
    }
}

/// Splitting the tile of `target` for `new_window` adds one leaf and one window, halves the
/// rectangle of `target` between the two, and leaves every other window's rectangle alone.
pub proof fn lemma_with_split(
    t: Tree,
    target: WindowId,
    new_window: WindowId,
    first: NodeId,
    second: NodeId,
    w: WindowId,
)
    requires
        t.well_formed(),
        t.windows().contains(target),
        !t.windows().contains(new_window),
    ensures
        ({
            let t2 = t.with_split(target, new_window, first, second);
            let rec = t.rect_of(target);
            &&& t2.leaf_count() == t.leaf_count() + 1
            &&& t2.windows() == t.windows().insert(new_window)
            &&& t2.rect_of(target) == first_half(rec, split_direction(rec))
            &&& t2.rect_of(new_window) == second_half(rec, split_direction(rec))
            &&& t.windows().contains(w) && w != target ==> t2.rect_of(w) == t.rect_of(w)
        }),
{
    let k = t.leaf_of(target);
    let rec = t.rect_of(target);
    let direction = split_direction(rec);
    let l = Tree::Leaf { id: first, window: target, rec: first_half(rec, direction) };
    let r = Tree::Leaf { id: second, window: new_window, rec: second_half(rec, direction) };
    let sub = Tree::Split { id: k, direction, rec, left: Box::new(l), right: Box::new(r) };
    lemma_leaf_of(t, target);
    assert(l.windows() =~= set![target] && r.windows() =~= set![new_window]);
    assert(sub.windows() =~= set![target, new_window]);
    assert(t.subtree(k).windows() =~= set![target]);
    assert(l.leaf_count() == 1);
    assert(r.leaf_count() == 1);
    assert(sub.leaf_count() == l.leaf_count() + r.leaf_count());
    lemma_replace_windows(t, k, sub);
    lemma_replace_leaves(t, k, sub, target);
    lemma_replace_leaves(t, k, sub, new_window);
    lemma_replace_leaves(t, k, sub, w);
    assert(sub.rect_of(target) == l.rect_of(target));
    assert(sub.rect_of(new_window) == r.rect_of(new_window));
    let t2 = t.with_split(target, new_window, first, second);
    assert(t2.windows() =~= t.windows().insert(new_window));
}

/// Exchanging the same subtree twice is exchanging it for the second replacement.
pub proof fn lemma_replace_twice(t: Tree, k: NodeId, x: Tree, y: Tree)
    requires
        t.well_formed(),
        t.ids().contains(k),
        x.id() == k,
    ensures
        t.replace(k, x).replace(k, y) == t.replace(k, y),
    decreases t,
{
    lemma_nodes_dom(t);
    if t.id() != k {
        match t {
            Tree::Leaf { .. } => {},
            Tree::Split { left, right, .. } => {
                lemma_nodes_dom(*left);
                lemma_nodes_dom(*right);
                lemma_nodes_dom(x);
                if left.ids().contains(k) {
                    lemma_replace_windows(*left, k, x);
                    lemma_replace_twice(*left, k, x, y);
                } else {
                    lemma_replace_windows(*right, k, x);
                    lemma_replace_twice(*right, k, x, y);
                }
            },
        }
    }
}

/// Exchanging a subtree for itself changes nothing.
pub proof fn lemma_replace_self(t: Tree, k: NodeId)
    requires
        t.ids().contains(k),
    ensures
        t.replace(k, t.subtree(k)) == t,
    decreases t,
{
    lemma_nodes_dom(t);
    if t.id() != k {
        match t {
            Tree::Leaf { .. } => {},
            Tree::Split { left, right, .. } => {
                lemma_nodes_dom(*left);
                lemma_nodes_dom(*right);
                if left.ids().contains(k) {
                    lemma_replace_self(*left, k);
                } else {
                    lemma_replace_self(*right, k);
                }
            },
        }
    }
}

/// Inserting a window beside `target` and removing it at once gives the tree back as it
/// was: `target` has its old rectangle again, and so has every other window.
pub proof fn lemma_insert_then_remove(
    t: Tree,
    target: WindowId,
    new_window: WindowId,
    first: NodeId,
    second: NodeId,
)
    requires
        t.well_formed(),
        t.windows().contains(target),
        !t.windows().contains(new_window),
        !t.ids().contains(first),
        !t.ids().contains(second),
        first != second,
    ensures
        t.with_split(target, new_window, first, second).without(new_window) == Some(t),
        t.with_split(target, new_window, first, second).without_fits(new_window),
{
    let k = t.leaf_of(target);
    let rec = t.rect_of(target);
    let direction = split_direction(rec);
    let l = Tree::Leaf { id: first, window: target, rec: first_half(rec, direction) };
    let r = Tree::Leaf { id: second, window: new_window, rec: second_half(rec, direction) };
    let sub = Tree::Split { id: k, direction, rec, left: Box::new(l), right: Box::new(r) };
    let t2 = t.with_split(target, new_window, first, second);
    lemma_nodes_dom(t);
    lemma_leaf_of(t, target);
    lemma_subtree(t, k);
    assert(l.ids() =~= set![first] && r.ids() =~= set![second]);
    assert(l.windows() =~= set![target] && r.windows() =~= set![new_window]);
    assert(l.well_formed() && r.well_formed());
    assert(sub.well_formed());
    assert(sub.windows() =~= set![target, new_window]);
    assert(sub.ids() =~= set![first, second, k]);
    assert(t.subtree(k).windows() =~= set![target]);
    assert(t.subtree(k).ids() =~= set![k]);
    lemma_replace(t, k, sub);
    lemma_replace_leaves(t, k, sub, new_window);
    assert(sub.leaf_of(new_window) == r.leaf_of(new_window));
    assert(t2.leaf_of(new_window) == second);
    lemma_nodes_dom(t2);
    lemma_subtree(t2, k);
    lemma_nodes_dom(sub);
    crate::tree_lemmas::lemma_parent_entry(t2, k, second);
    assert(t2.subtree(k).sibling_of(second) == l);
    assert(l.promoted(k, rec) == t.subtree(k));
    lemma_replace_twice(t, k, sub, t.subtree(k));
    lemma_replace_self(t, k);
}

/// Laying out the subtree at `k` in `rect` a second time changes nothing.
pub proof fn lemma_modify_idempotent(t: Tree, k: NodeId, rect: Rect)
    requires
        t.well_formed(),
        t.ids().contains(k),
    ensures
        ({
            let once = t.replace(k, t.subtree(k).laid_out(rect));
            once.replace(k, once.subtree(k).laid_out(rect)) == once
        }),
{
    let sub = t.subtree(k);
    let once = t.replace(k, sub.laid_out(rect));
    lemma_subtree(t, k);
    lemma_laid_out(sub, rect);
    lemma_replace(t, k, sub.laid_out(rect));
    lemma_laid_out_idempotent(sub, rect);
    lemma_replace_twice(t, k, sub.laid_out(rect), sub.laid_out(rect));
}

/// Removing the first window of a tree whose other side is a split of two leaves leaves
/// that split in the place of the topmost node: it keeps its direction, covers the rectangle
/// of the old topmost node, and its two leaves are the halves of that rectangle.
pub proof fn lemma_remove_rebalances(
    root: NodeId,
    outer: Direction,
    rec: Rect,
    x: Tree,
    inner: NodeId,
    direction: Direction,
    inner_rec: Rect,
    y: Tree,
    z: Tree,
)
    requires
        x is Leaf,
        y is Leaf,
        z is Leaf,
        (Tree::Split {
            id: root,
            direction: outer,
            rec,
            left: Box::new(x),
            right: Box::new(
                Tree::Split { id: inner, direction, rec: inner_rec, left: Box::new(y), right: Box::new(z) },
            ),
        }).well_formed(),
        split_fits(rec, direction),
    ensures
        ({
            let t = Tree::Split {
                id: root,
                direction: outer,
                rec,
                left: Box::new(x),
                right: Box::new(
                    Tree::Split { id: inner, direction, rec: inner_rec, left: Box::new(y), right: Box::new(z) },
                ),
            };
            let after = Tree::Split {
                id: root,
                direction,
                rec,
                left: Box::new(Tree::Leaf { id: y.id(), window: y->window, rec: first_half(rec, direction) }),
                right: Box::new(
                    Tree::Leaf { id: z.id(), window: z->window, rec: second_half(rec, direction) },
                ),
            };
            &&& t.without_fits(x->window)
            &&& t.without(x->window) == Some(after)
            &&& adjacent(first_half(rec, direction), second_half(rec, direction), rec, direction)
        }),
{
    let s = Tree::Split { id: inner, direction, rec: inner_rec, left: Box::new(y), right: Box::new(z) };
    let t = Tree::Split { id: root, direction: outer, rec, left: Box::new(x), right: Box::new(s) };
    lemma_nodes_dom(t);
    lemma_nodes_dom(x);
    lemma_nodes_dom(s);
    assert(x.windows() =~= set![x->window]);
    assert(x.leaf_of(x->window) == x.id());
    assert(t.leaf_of(x->window) == x.id());
    assert(t.parent_id(x.id()) == root);
    assert(t.subtree(root) == t);
    assert(t.sibling_of(x.id()) == s);
    let moved = Tree::Split { id: root, direction, rec, left: Box::new(y), right: Box::new(z) };
    assert(s.promoted(root, rec) == moved.laid_out(rec));
    assert(y.laid_out(first_half(rec, direction)) == (Tree::Leaf {
        id: y.id(),
        window: y->window,
        rec: first_half(rec, direction),
    }));
    assert(z.laid_out(second_half(rec, direction)) == (Tree::Leaf {
        id: z.id(),
        window: z->window,
        rec: second_half(rec, direction),
    }));
    assert(y.fits(first_half(rec, direction)));
    assert(z.fits(second_half(rec, direction)));
    assert(s.fits(rec));
    lemma_halves_partition(rec, direction);
}

/// Removing a window takes that window out of the tree and no other.
pub proof fn lemma_without_windows(t: Tree, target: WindowId)
    requires
        t.well_formed(),
        t.partitioned(),
        t.windows().contains(target),
        t.without_fits(target),
    ensures
        t.without(target) is None ==> t.windows() == set![target],
        t.without(target) matches Some(t2) ==> {
            &&& t2.well_formed()
            &&& t2.partitioned()
            &&& t2.windows() == t.windows().remove(target)
            &&& t2.leaf_count() + 1 == t.leaf_count()
            &&& t2.height() <= t.height()
        },
{
    let k = t.leaf_of(target);
    lemma_nodes_dom(t);
    lemma_leaf_of(t, target);
    if t.id() == k {
        assert(t.subtree(k) == t);
        assert(t.windows() =~= set![target]);
    } else {
        let p = t.parent_id(k);
        crate::tree_lemmas::lemma_parent_exists(t, k);
        crate::tree_lemmas::lemma_parent_entry(t, p, k);
        crate::tree_lemmas::lemma_split_children(t, p);
        let parent = t.subtree(p);
        let sibling = parent.sibling_of(k);
        let sub = sibling.promoted(p, parent.rect());
        let leaf = t.subtree(k);
        lemma_subtree(t, p);
        lemma_nodes_dom(parent);
        lemma_nodes_dom(sibling);
        lemma_nodes_dom(leaf);
        assert(leaf.windows() =~= set![target]);
        assert(leaf.ids() =~= set![k]);
        assert(parent.windows() =~= sibling.windows().insert(target));
        assert(!sibling.windows().contains(target));
        assert(leaf.leaf_count() == 1);
        assert(parent.leaf_count() == sibling.leaf_count() + 1);
        match sibling {
            Tree::Leaf { window, .. } => {
                assert(sub.windows() =~= sibling.windows());
                assert(sub.ids() =~= set![p]);
                assert(sub.well_formed() && sub.partitioned());
                assert(sub.leaf_count() == 1);
                assert(sub.height() == 1);
            },
            Tree::Split { direction, left, right, .. } => {
                let moved = Tree::Split { id: p, direction, rec: parent.rect(), left, right };
                lemma_nodes_dom(*left);
                lemma_nodes_dom(*right);
                assert(moved.ids() =~= left.ids().union(right.ids()).insert(p));
                assert(sibling.ids() =~= left.ids().union(right.ids()).insert(sibling.id()));
                assert(moved.windows() =~= sibling.windows());
                assert(moved.well_formed());
                assert(moved.fits(parent.rect()) == sibling.fits(parent.rect()));
                assert(moved.leaf_count() == sibling.leaf_count());
                assert(moved.height() == sibling.height());
                lemma_laid_out(moved, parent.rect());
                crate::tree_lemmas::lemma_laid_out_partitioned(moved, parent.rect());
            },
        }
        assert(sub.height() <= parent.height());
        lemma_replace(t, p, sub);
        lemma_replace_leaves(t, p, sub, target);
        lemma_replace_height(t, p, sub);
        let t2 = t.replace(p, sub);
        assert(t2.windows() =~= t.windows().remove(target));
    }
}

/// Exchanging a subtree for one that is no taller does not make the tree taller.
pub proof fn lemma_replace_height(t: Tree, k: NodeId, sub: Tree)
    requires
        t.ids().contains(k),
        sub.height() <= t.subtree(k).height(),
    ensures
        t.replace(k, sub).height() <= t.height(),
    decreases t,
{
    lemma_nodes_dom(t);
    if t.id() != k {
        match t {
            Tree::Leaf { .. } => {},
            Tree::Split { left, right, .. } => {
                lemma_nodes_dom(*left);
                lemma_nodes_dom(*right);
                if left.ids().contains(k) {
                    lemma_replace_height(*left, k, sub);
                } else {
                    lemma_replace_height(*right, k, sub);
                }
            },
        }
    }
}

/// In a tree whose bound leaves room for its height, the tile of every window can be split.
pub proof fn lemma_tame_tile(t: Tree, s: int, w: WindowId)
    requires
        t.tame(s),
        t.windows().contains(w),
        s + GAP * t.height() <= COORD_BOUND + GAP,
    ensures
        bounded(t.rect_of(w), s + GAP * (t.height() - 1)),
        split_fits(t.rect_of(w), split_direction(t.rect_of(w))),
    decreases t,
{
    match t {
        Tree::Leaf { .. } => {},
        Tree::Split { left, right, .. } => {
            if left.windows().contains(w) {
                lemma_tame_tile(*left, s + GAP, w);
            } else {
                lemma_tame_tile(*right, s + GAP, w);
            }
        },
    }
    lemma_halves_bounded(t.rect_of(w), split_direction(t.rect_of(w)), s + GAP * (t.height() - 1));
}

/// A layout in a bounded rectangle fits and is bounded, if the bound leaves room for the
/// height of the tree.
pub proof fn lemma_laid_out_tame(t: Tree, rect: Rect, s: int)
    requires
        bounded(rect, s),
        s + GAP * t.height() <= COORD_BOUND + GAP,
    ensures
        t.fits(rect),
        t.laid_out(rect).tame(s),
    decreases t,
{
    match t {
        Tree::Leaf { .. } => {},
        Tree::Split { direction, left, right, .. } => {
            lemma_halves_bounded(rect, direction, s);
            lemma_laid_out_tame(*left, first_half(rect, direction), s + GAP);
            lemma_laid_out_tame(*right, second_half(rect, direction), s + GAP);
        },
    }
}

/// Exchanging a subtree keeps the tree bounded if the new subtree is bounded wherever the
/// old one was.
pub proof fn lemma_replace_tame(t: Tree, k: NodeId, sub: Tree, s: int)
    requires
        t.tame(s),
        t.ids().contains(k),
        s + GAP * t.height() <= COORD_BOUND + GAP,
        forall|s2: int| s <= s2 && s2 + GAP * t.subtree(k).height() <= COORD_BOUND + GAP && #[trigger] t.subtree(k).tame(s2) ==> sub.tame(s2),
    ensures
        t.replace(k, sub).tame(s),
    decreases t,
{
    lemma_nodes_dom(t);
    if t.id() != k {
        match t {
            Tree::Leaf { .. } => {},
            Tree::Split { left, right, .. } => {
                lemma_nodes_dom(*left);
                lemma_nodes_dom(*right);
                if left.ids().contains(k) {
                    lemma_replace_tame(*left, k, sub, s + GAP);
                } else {
                    lemma_replace_tame(*right, k, sub, s + GAP);
                }
            },
        }
    }
}

/// Splitting a tile of a bounded tree keeps the tree bounded.
pub proof fn lemma_with_split_tame(
    t: Tree,
    target: WindowId,
    new_window: WindowId,
    first: NodeId,
    second: NodeId,
    s: int,
)
    requires
        t.well_formed(),
        t.tame(s),
        t.windows().contains(target),
        s + GAP * t.height() <= COORD_BOUND,
    ensures
        t.with_split(target, new_window, first, second).tame(s),
        t.with_split(target, new_window, first, second).height() <= t.height() + 1,
{
    let k = t.leaf_of(target);
    let rec = t.rect_of(target);
    let direction = split_direction(rec);
    let l = Tree::Leaf { id: first, window: target, rec: first_half(rec, direction) };
    let r = Tree::Leaf { id: second, window: new_window, rec: second_half(rec, direction) };
    let sub = Tree::Split { id: k, direction, rec, left: Box::new(l), right: Box::new(r) };
    lemma_nodes_dom(t);
    lemma_leaf_of(t, target);
    assert forall|s2: int| s <= s2 && s2 + GAP * t.subtree(k).height() <= COORD_BOUND + GAP && #[trigger] t.subtree(k).tame(s2) implies sub.tame(s2) by {
        lemma_halves_bounded(rec, direction, s2);
        assert(l.tame(s2 + GAP));
        assert(r.tame(s2 + GAP));
    }
    lemma_replace_tame(t, k, sub, s);
    assert(l.height() == 1);
    assert(r.height() == 1);
    assert(sub.height() == 2);
    lemma_replace_height_by(t, k, sub, 1);
}

/// Exchanging a subtree for one that is at most `n` levels taller makes the tree at most
/// `n` levels taller.
pub proof fn lemma_replace_height_by(t: Tree, k: NodeId, sub: Tree, n: nat)
    requires
        t.ids().contains(k),
        sub.height() <= t.subtree(k).height() + n,
    ensures
        t.replace(k, sub).height() <= t.height() + n,
    decreases t,
{
    lemma_nodes_dom(t);
    if t.id() != k {
        match t {
            Tree::Leaf { .. } => {},
            Tree::Split { left, right, .. } => {
                lemma_nodes_dom(*left);
                lemma_nodes_dom(*right);
                if left.ids().contains(k) {
                    lemma_replace_height_by(*left, k, sub, n);
                } else {
                    lemma_replace_height_by(*right, k, sub, n);
                }
            },
        }
    }
}

/// Removing a window from a bounded tree fits and keeps the tree bounded.
pub proof fn lemma_without_tame(t: Tree, target: WindowId, s: int)
    requires
        t.well_formed(),
        t.tame(s),
        t.windows().contains(target),
        s + GAP * t.height() <= COORD_BOUND + GAP,
    ensures
        t.without_fits(target),
        t.without(target) matches Some(t2) ==> t2.tame(s),
{
    let k = t.leaf_of(target);
    lemma_nodes_dom(t);
    lemma_leaf_of(t, target);
    if t.id() != k {
        let p = t.parent_id(k);
        crate::tree_lemmas::lemma_parent_exists(t, k);
        crate::tree_lemmas::lemma_parent_entry(t, p, k);
        let parent = t.subtree(p);
        let sibling = parent.sibling_of(k);
        let rec = parent.rect();
        let sub = sibling.promoted(p, rec);
        lemma_subtree_tame(t, p, s);
        let sp = choose|sp: int| s <= sp && sp + GAP * parent.height() <= COORD_BOUND + GAP && parent.tame(sp);
        assert(bounded(rec, sp));
        assert(sibling.height() < parent.height());
        assert forall|s2: int| s <= s2 && s2 + GAP * parent.height() <= COORD_BOUND + GAP && #[trigger] parent.tame(s2) implies sub.tame(s2) by {
            assert(bounded(rec, s2));
            match sibling {
                Tree::Leaf { .. } => {},
                Tree::Split { direction, left, right, .. } => {
                    let moved = Tree::Split { id: p, direction, rec, left, right };
                    assert(moved.height() == sibling.height());
                    lemma_laid_out_tame(moved, rec, s2);
                },
            }
        }
        match sibling {
            Tree::Leaf { .. } => {},
            Tree::Split { direction, left, right, .. } => {
                let moved = Tree::Split { id: p, direction, rec, left, right };
                assert(moved.height() == sibling.height());
                lemma_laid_out_tame(moved, rec, sp);
                assert(moved.fits(rec) == sibling.fits(rec));
            },
        }
        lemma_replace_tame(t, p, sub, s);
    }
}

/// Every subtree of a bounded tree is bounded, from a starting value that still leaves room
/// for its height.
pub proof fn lemma_subtree_tame(t: Tree, k: NodeId, s: int)
    requires
        t.tame(s),
        t.ids().contains(k),
        s + GAP * t.height() <= COORD_BOUND + GAP,
    ensures
        exists|sp: int| s <= sp && sp + GAP * t.subtree(k).height() <= COORD_BOUND + GAP && #[trigger] t.subtree(k).tame(sp),
    decreases t,
{
    lemma_nodes_dom(t);
    if t.id() == k {
        assert(t.subtree(k).tame(s));
    } else {
        match t {
            Tree::Leaf { .. } => {},
            Tree::Split { left, right, .. } => {
                lemma_nodes_dom(*left);
                lemma_nodes_dom(*right);
                if left.ids().contains(k) {
                    lemma_subtree_tame(*left, k, s + GAP);
                    let sp = choose|sp: int| s + GAP <= sp && sp + GAP * left.subtree(k).height() <= COORD_BOUND + GAP && #[trigger] left.subtree(k).tame(sp);
                    assert(t.subtree(k).tame(sp));
                } else {
                    lemma_subtree_tame(*right, k, s + GAP);
                    let sp = choose|sp: int| s + GAP <= sp && sp + GAP * right.subtree(k).height() <= COORD_BOUND + GAP && #[trigger] right.subtree(k).tame(sp);
                    assert(t.subtree(k).tame(sp));
                }
            },
        }
    }
}

/// Swapping the children of a split keeps the windows, the height and the bound of a tree.
pub proof fn lemma_inverted(t: Tree, target: WindowId, s: int)
    requires
        t.well_formed(),
        t.windows().contains(target),
        t is Split,
    ensures
        t.inverted(target).windows() == t.windows(),
        t.inverted(target).height() <= t.height(),
        t.tame(s) && s + GAP * t.height() <= COORD_BOUND + GAP ==> t.inverted(target).tame(s),
        forall|w: WindowId| t.windows().contains(w) ==> t.inverted(target).rect_of(w) == t.rect_of(w),
{
    let k = t.leaf_of(target);
    lemma_nodes_dom(t);
    lemma_leaf_of(t, target);
    assert(t.id() != k) by {
        assert(t.subtree(k) is Leaf);
    }
    let p = t.parent_id(k);
    crate::tree_lemmas::lemma_parent_exists(t, k);
    crate::tree_lemmas::lemma_parent_entry(t, p, k);
    let parent = t.subtree(p);
    let sub = parent.swapped();
    lemma_subtree(t, p);
    assert(sub.windows() =~= parent.windows());
    assert(sub.ids() =~= parent.ids());
    assert(sub.height() == parent.height());
    lemma_replace_windows(t, p, sub);
    lemma_replace_height(t, p, sub);
    assert(t.inverted(target).windows() =~= t.windows());
    if t.tame(s) && s + GAP * t.height() <= COORD_BOUND + GAP {
        lemma_replace_tame(t, p, sub, s);
    }
    assert forall|w: WindowId| t.windows().contains(w) implies t.inverted(target).rect_of(w) == t.rect_of(w) by {
        lemma_replace_leaves(t, p, sub, w);
        if parent.windows().contains(w) {
            lemma_subtree_rect_of(t, p, w);
            assert(sub.rect_of(w) == parent.rect_of(w)) by {
                assert(parent->left.windows().disjoint(parent->right.windows()));
            }
        }
    }
}

/// The tile of a window of a subtree is the same seen from the subtree and from the tree.
pub proof fn lemma_subtree_rect_of(t: Tree, k: NodeId, w: WindowId)
    requires
        t.well_formed(),
        t.ids().contains(k),
        t.subtree(k).windows().contains(w),
    ensures
        t.subtree(k).rect_of(w) == t.rect_of(w),
        t.subtree(k).leaf_of(w) == t.leaf_of(w),
    decreases t,
{
    lemma_nodes_dom(t);
    if t.id() != k {
        match t {
            Tree::Leaf { .. } => {},
            Tree::Split { left, right, .. } => {
                lemma_nodes_dom(*left);
                lemma_nodes_dom(*right);
                if left.ids().contains(k) {
                    lemma_subtree(*left, k);
                    lemma_subtree_rect_of(*left, k, w);
                } else {
                    lemma_subtree(*right, k);
                    lemma_subtree_rect_of(*right, k, w);
                }
            },
        }
    }
}

/// Moving a boundary in a bounded tree fits, and keeps the windows, the height and the
/// bound of the tree.
pub proof fn lemma_resized(t: Tree, target: WindowId, offset: (i32, i32), s: int)
    requires
        t.well_formed(),
        t.partitioned(),
        t.windows().contains(target),
        t is Split,
        t.tame(s),
        s + GAP * t.height() <= COORD_BOUND + GAP,
    ensures
        t.resize_fits(target, offset),
        t.resized(target, offset).windows() == t.windows(),
        t.resized(target, offset).height() <= t.height(),
        t.resized(target, offset).tame(s),
{
    let k = t.leaf_of(target);
    lemma_nodes_dom(t);
    lemma_leaf_of(t, target);
    assert(t.id() != k) by {
        assert(t.subtree(k) is Leaf);
    }
    let p = t.parent_id(k);
    crate::tree_lemmas::lemma_parent_exists(t, k);
    crate::tree_lemmas::lemma_parent_entry(t, p, k);
    crate::tree_lemmas::lemma_split_children(t, p);
    let parent = t.subtree(p);
    let delta = parent.acting_offset(offset);
    let l = *parent->left;
    let r = *parent->right;
    let d = parent->direction;
    let sub = parent.with_boundary_moved(delta);
    lemma_subtree_tame(t, p, s);
    lemma_windows_finite(l);
    lemma_windows_finite(r);
    assert forall|s2: int| s <= s2 && s2 + GAP * parent.height() <= COORD_BOUND + GAP && #[trigger] parent.tame(s2) implies sub.tame(s2)
        && parent.boundary_move_fits(delta) by {
        assert(l.tame(s2 + GAP) && r.tame(s2 + GAP));
        assert(bounded(l.rect(), s2 + GAP) && bounded(r.rect(), s2 + GAP));
        if parent.left_first() {
            lemma_shift_bounded(l.rect(), r.rect(), d, delta, s2 + GAP);
        } else {
            lemma_shift_bounded(r.rect(), l.rect(), d, delta, s2 + GAP);
        }
        lemma_laid_out_tame(l, parent.left_after_shift(delta), s2 + GAP);
        lemma_laid_out_tame(r, parent.right_after_shift(delta), s2 + GAP);
    }
    let sp = choose|sp: int| s <= sp && sp + GAP * parent.height() <= COORD_BOUND + GAP && #[trigger] parent.tame(sp);
    assert(parent.boundary_move_fits(delta));
    lemma_laid_out(l, parent.left_after_shift(delta));
    lemma_laid_out(r, parent.right_after_shift(delta));
    assert(sub.height() == parent.height());
    crate::tree_lemmas::lemma_boundary_moved(t, p, delta);
    lemma_replace_height(t, p, sub);
    lemma_replace_tame(t, p, sub, s);
}

/// Every split of a tree has exactly two children, which are two different nodes of the
/// tree, and the rectangles of the two tile the rectangle of the split: they share no point,
/// and together with the gap between them they cover its extent, rounded toward zero to an
/// even number, along the direction of the split.
pub proof fn lemma_every_split_is_tiled(t: Tree, k: NodeId)
    requires
        t.well_formed(),
        t.partitioned(),
        t.ids().contains(k),
        t.nodes()[k] is Split,
    ensures
        ({
            let split = t.nodes()[k];
            let left = split->left;
            let right = split->right;
            &&& left != right
            &&& left != k && right != k
            &&& t.ids().contains(left) && t.ids().contains(right)
            &&& partitions(t.nodes()[left].rect(), t.nodes()[right].rect(), split->Split_rec, split->direction)
            &&& t.nodes()[left].rect().disjoint(t.nodes()[right].rect())
        }),
{
    lemma_nodes_dom(t);
    lemma_subtree(t, k);
    crate::tree_lemmas::lemma_split_children(t, k);
    let parent = t.subtree(k);
    lemma_nodes_dom(*parent->left);
    lemma_nodes_dom(*parent->right);
    let split = t.nodes()[k];
    lemma_partition_disjoint(t.nodes()[split->left].rect(), t.nodes()[split->right].rect(), split->Split_rec, split->direction);
}

/// A tree has as many leaves as windows, however it was built.
pub proof fn lemma_leaves_are_windows(t: Tree)
    requires
        t.well_formed(),
    ensures
        t.windows().finite(),
        t.windows().len() == t.leaf_count(),
{
    lemma_counts(t);
}

} // verus!
