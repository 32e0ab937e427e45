//! A tiling tree that owns its subtrees: every leaf holds one window with its rectangle,
//! and a split holds nothing but its two sides.

use vstd::prelude::*;
use crate::geometry::{first_half, get_new_rec, second_half, split_direction, split_fits, Rect, GAP};
use crate::window::{Window, WindowId};

verus! {

/// A tiling tree as a value: a leaf with its window and rectangle, or a split of two
/// subtrees.
pub enum TiledLayoutTree {
    Leaf { window: WindowId, rec: Rect },
    Split { left: Box<TiledLayoutTree>, right: Box<TiledLayoutTree> },
}

/// The rectangle less one gap on every side.
pub open spec fn inset(rec: Rect) -> Rect {
    Rect { x: (rec.x + GAP) as i32, y: (rec.y + GAP) as i32, w: (rec.w - 2 * GAP) as i32, h: (rec.h - 2 * GAP) as i32 }
}

/// The inset rectangle is representable.
pub open spec fn inset_fits(rec: Rect) -> bool {
    &&& rec.x + GAP <= i32::MAX
    &&& rec.y + GAP <= i32::MAX
    &&& i32::MIN <= rec.w - 2 * GAP
    &&& i32::MIN <= rec.h - 2 * GAP
}

/// The two leaves that take the place of a leaf of `window` in `rec` when `new_window`
/// joins it: `window` in the first half, `new_window` in the second.
pub open spec fn split_leaf(window: WindowId, rec: Rect, new_window: WindowId) -> TiledLayoutTree {
    TiledLayoutTree::Split {
        left: Box::new(TiledLayoutTree::Leaf { window, rec: first_half(rec, split_direction(rec)) }),
        right: Box::new(
            TiledLayoutTree::Leaf { window: new_window, rec: second_half(rec, split_direction(rec)) },
        ),
    }
}

impl TiledLayoutTree {
    /// Windows of all leaves.
    pub open spec fn windows(self) -> Set<WindowId>
        decreases self,
    {
        match self {
            TiledLayoutTree::Leaf { window, .. } => set![window],
            TiledLayoutTree::Split { left, right } => left.windows().union(right.windows()),
        }
    }

    /// Number of leaves.
    pub open spec fn leaf_count(self) -> nat
        decreases self,
    {
        match self {
            TiledLayoutTree::Leaf { .. } => 1,
            TiledLayoutTree::Split { left, right } => left.leaf_count() + right.leaf_count(),
        }
    }

    /// Number of nodes on the shortest path from the top to a leaf.
    pub open spec fn min_depth(self) -> nat
        decreases self,
    {
        match self {
            TiledLayoutTree::Leaf { .. } => 1,
            TiledLayoutTree::Split { left, right } => 1 + if left.min_depth() <= right.min_depth() {
                left.min_depth()
            } else {
                right.min_depth()
            },
        }
    }

    /// Number of nodes on the longest path from the top to a leaf.
    pub open spec fn height(self) -> nat
        decreases self,
    {
        match self {
            TiledLayoutTree::Leaf { .. } => 1,
            TiledLayoutTree::Split { left, right } => 1 + if left.height() >= right.height() {
                left.height()
            } else {
                right.height()
            },
        }
    }

    /// The leftmost leaf that holds `id`.
    pub open spec fn leaf_with(self, id: WindowId) -> Option<TiledLayoutTree>
        decreases self,
    {
        match self {
            TiledLayoutTree::Leaf { window, .. } => if window == id {
                Some(self)
            } else {
                None
            },
            TiledLayoutTree::Split { left, right } => match left.leaf_with(id) {
                Some(leaf) => Some(leaf),
                None => right.leaf_with(id),
            },
        }
    }

    /// The tree after the leftmost leaf of `focus` was split for `new_window`.
    pub open spec fn split_at(self, focus: WindowId, new_window: WindowId) -> TiledLayoutTree
        decreases self,
    {
        match self {
            TiledLayoutTree::Leaf { window, rec } => if window == focus {
                split_leaf(window, rec, new_window)
            } else {
                self
            },
            TiledLayoutTree::Split { left, right } => if left.leaf_with(focus) is Some {
                TiledLayoutTree::Split { left: Box::new(left.split_at(focus, new_window)), right }
            } else {
                TiledLayoutTree::Split { left, right: Box::new(right.split_at(focus, new_window)) }
            },
        }
    }

    /// The leaf that a walk from the top ends at when it always takes the side with the
    /// shorter path to a leaf, and the right side when both are equal.
    pub open spec fn shallow_leaf(self) -> TiledLayoutTree
        decreases self,
    {
        match self {
            TiledLayoutTree::Leaf { .. } => self,
            TiledLayoutTree::Split { left, right } => if left.min_depth() < right.min_depth() {
                left.shallow_leaf()
            } else {
                right.shallow_leaf()
            },
        }
    }

    /// The tree after the leaf that `shallow_leaf` ends at was split for `new_window`.
    pub open spec fn split_shallow(self, new_window: WindowId) -> TiledLayoutTree
        decreases self,
    {
        match self {
            TiledLayoutTree::Leaf { window, rec } => split_leaf(window, rec, new_window),
            TiledLayoutTree::Split { left, right } => if left.min_depth() < right.min_depth() {
                TiledLayoutTree::Split { left: Box::new(left.split_shallow(new_window)), right }
            } else {
                TiledLayoutTree::Split { left, right: Box::new(right.split_shallow(new_window)) }
            },
        }
    }

    /// A tree of one leaf that holds `window` in `rec` less one gap on every side. The second
    /// part of the answer is where the window goes.
    pub fn new(window: Window, rec: Rect) -> (res: (TiledLayoutTree, (i32, i32)))
        requires
            inset_fits(rec),
        ensures
            res.0 == (TiledLayoutTree::Leaf { window: window.id, rec: inset(rec) }),
            res.1 == (inset(rec).x, inset(rec).y),
    {
        let inner = Rect { x: rec.x + GAP, y: rec.y + GAP, w: rec.w - GAP * 2, h: rec.h - GAP * 2 };
        (TiledLayoutTree::Leaf { window: window.id, rec: inner }, (inner.x, inner.y))
    }

    /// The leftmost leaf that holds `win`.
    pub fn find_window(&self, win: &Window) -> (r: Option<&TiledLayoutTree>)
        ensures
            match r {
                Some(leaf) => self.leaf_with(win.id) == Some(*leaf),
                None => self.leaf_with(win.id) is None,
            },
        decreases self,
    {
        match self {
            TiledLayoutTree::Leaf { window, .. } => {
                if *window == win.id {
                    Some(self)
                } else {
                    None
                }
            },
            TiledLayoutTree::Split { left, right } => {
                match left.find_window(win) {
                    Some(leaf) => Some(leaf),
                    None => right.find_window(win),
                }
            },
        }
    }

    /// Length of the shortest path from the top to a leaf, counted in nodes.
    pub fn depth(&self) -> (r: usize)
        requires
            self.height() <= usize::MAX,
        ensures
            r == self.min_depth(),
            r <= self.height(),
        decreases self,
    {
        match self {
            TiledLayoutTree::Leaf { .. } => 1,
            TiledLayoutTree::Split { left, right } => {
                let l = left.depth();
                let r = right.depth();
                if l <= r {
                    1 + l
                } else {
                    1 + r
                }
            },
        }
    }

    /// Splits the leftmost leaf of `focused_window` in two, for that window and
    /// `new_window`, and answers where `new_window` goes. Without a focused window, or with
    /// one that has no leaf, nothing changes and the answer is `None`.
    pub fn insert_default(
        &mut self,
        new_window: Window,
        focused_window: Option<&Window>,
    ) -> (r: Option<(i32, i32)>)
        requires
            focused_window matches Some(f) && old(self).leaf_with(f.id) matches Some(leaf) ==> split_fits(
                leaf->rec,
                split_direction(leaf->rec),
            ),
        ensures
            match focused_window {
                Some(f) => match old(self).leaf_with(f.id) {
                    Some(leaf) => {
                        let at = second_half(leaf->rec, split_direction(leaf->rec));
                        r == Some((at.x, at.y)) && *final(self) == old(self).split_at(f.id, new_window.id)
                    },
                    None => r is None && *final(self) == *old(self),
                },
                None => r is None && *final(self) == *old(self),
            },
    {
        match focused_window {
            Some(current_window) => self.insert_beside(new_window.id, current_window.id),
            None => None,
        }
    }

    fn insert_beside(&mut self, new_window: WindowId, focus: WindowId) -> (r: Option<(i32, i32)>)
        requires
            old(self).leaf_with(focus) matches Some(leaf) ==> split_fits(
                leaf->rec,
                split_direction(leaf->rec),
            ),
        ensures
            match old(self).leaf_with(focus) {
                Some(leaf) => {
                    let at = second_half(leaf->rec, split_direction(leaf->rec));
                    r == Some((at.x, at.y)) && *final(self) == old(self).split_at(focus, new_window)
                },
                None => r is None && *final(self) == *old(self),
            },
        decreases *old(self),
    {
        match self {
            TiledLayoutTree::Leaf { window, rec } => {
                if *window == focus {
                    let (_, l_rec, r_rec) = get_new_rec(rec);
                    let w = *window;
                    *self = TiledLayoutTree::Split {
                        left: Box::new(TiledLayoutTree::Leaf { window: w, rec: l_rec }),
                        right: Box::new(TiledLayoutTree::Leaf { window: new_window, rec: r_rec }),
                    };
                    Some((r_rec.x, r_rec.y))
                } else {
                    None
                }
            },
            TiledLayoutTree::Split { left, right } => {
                match left.insert_beside(new_window, focus) {
                    Some(at) => Some(at),
                    None => right.insert_beside(new_window, focus),
                }
            },
        }
    }

    /// Splits the leaf at the end of the shallowest path in two, for its window and
    /// `new_window`, and answers where `new_window` goes.
    pub fn insert_binary_tree(&mut self, new_window: Window) -> (r: (i32, i32))
        requires
            old(self).height() <= usize::MAX,
            split_fits(old(self).shallow_leaf()->rec, split_direction(old(self).shallow_leaf()->rec)),
        ensures
            *final(self) == old(self).split_shallow(new_window.id),
            ({
                let at = second_half(
                    old(self).shallow_leaf()->rec,
                    split_direction(old(self).shallow_leaf()->rec),
                );
                r == (at.x, at.y)
            }),
        decreases *old(self),
    {
        match self {
            TiledLayoutTree::Leaf { window, rec } => {
                let (_, l_rec, r_rec) = get_new_rec(rec);
                let w = *window;
                *self = TiledLayoutTree::Split {
                    left: Box::new(TiledLayoutTree::Leaf { window: w, rec: l_rec }),
                    right: Box::new(TiledLayoutTree::Leaf { window: new_window.id, rec: r_rec }),
                };
                (r_rec.x, r_rec.y)
            },
            TiledLayoutTree::Split { left, right } => {
                if left.depth() < right.depth() {
                    left.insert_binary_tree(new_window)
                } else {
                    right.insert_binary_tree(new_window)
                }
            },
        }
    }
}

} // verus!
