//! The tiling tree as a mathematical value: a binary tree whose leaves are tiles and whose
//! inner nodes are splits. The arena-backed tree is specified against it.

use vstd::prelude::*;
use crate::geometry::{
    bounded, clamped_shift, comes_first, extent, first_half, grown, partitions, second_half, shift_fits,
    shrunk, split_direction, split_fits, Direction, Rect, GAP,
};
use crate::node::{NodeData, NodeId};
use crate::window::WindowId;

verus! {

/// A tiling tree with the handle of every node.
pub enum Tree {
    Leaf { id: NodeId, window: WindowId, rec: Rect },
    Split { id: NodeId, direction: Direction, rec: Rect, left: Box<Tree>, right: Box<Tree> },
}

impl Tree {
    /// Handle of the topmost node.
    pub open spec fn id(self) -> NodeId {
        match self {
            Tree::Leaf { id, .. } => id,
            Tree::Split { id, .. } => id,
        }
    }

    /// Rectangle that the topmost node covers.
    pub open spec fn rect(self) -> Rect {
        match self {
            Tree::Leaf { rec, .. } => rec,
            Tree::Split { rec, .. } => rec,
        }
    }

    /// What the arena stores for the topmost node.
    pub open spec fn entry(self) -> NodeData {
        match self {
            Tree::Leaf { window, rec, .. } => NodeData::Leaf { window, rec },
            Tree::Split { direction, rec, left, right, .. } => NodeData::Split {
                direction,
                rec,
                left: left.id(),
                right: right.id(),
            },
        }
    }

    /// Handles of all nodes.
    pub open spec fn ids(self) -> Set<NodeId>
        decreases self,
    {
        match self {
            Tree::Leaf { id, .. } => set![id],
            Tree::Split { id, left, right, .. } => left.ids().union(right.ids()).insert(id),
        }
    }

    /// Windows of all leaves.
    pub open spec fn windows(self) -> Set<WindowId>
        decreases self,
    {
        match self {
            Tree::Leaf { window, .. } => set![window],
            Tree::Split { left, right, .. } => left.windows().union(right.windows()),
        }
    }

    /// Number of leaves.
    pub open spec fn leaf_count(self) -> nat
        decreases self,
    {
        match self {
            Tree::Leaf { .. } => 1,
            Tree::Split { left, right, .. } => left.leaf_count() + right.leaf_count(),
        }
    }

    /// Number of nodes on the longest path from the top to a leaf.
    pub open spec fn height(self) -> nat
        decreases self,
    {
        match self {
            Tree::Leaf { .. } => 1,
            Tree::Split { left, right, .. } => {
                1 + if left.height() >= right.height() {
                    left.height()
                } else {
                    right.height()
                }
            },
        }
    }

    /// The arena contents that represent this tree: one entry per node.
    pub open spec fn nodes(self) -> Map<NodeId, NodeData>
        decreases self,
    {
        match self {
            Tree::Leaf { id, .. } => Map::empty().insert(id, self.entry()),
            Tree::Split { id, left, right, .. } => left.nodes().union_prefer_right(
                right.nodes(),
            ).insert(id, self.entry()),
        }
    }

    /// The map holds every entry of this tree, perhaps among others.
    pub open spec fn stored_in(self, m: Map<NodeId, NodeData>) -> bool {
        forall|k: NodeId| #[trigger]
            self.nodes().dom().contains(k) ==> m.dom().contains(k) && m[k] == self.nodes()[k]
    }

    /// The nodes in the order in which a walk from the top meets them, each split before
    /// its left side and its left side before its right side, with the number of splits above
    /// each node counted from `depth`.
    pub open spec fn outline(self, depth: nat) -> Seq<(usize, NodeData)>
        decreases self,
    {
        match self {
            Tree::Leaf { .. } => seq![(depth as usize, self.entry())],
            Tree::Split { left, right, .. } => seq![(depth as usize, self.entry())] + left.outline(depth + 1)
                + right.outline(depth + 1),
        }
    }

    /// The windows with their rectangles, from the leftmost leaf to the rightmost.
    pub open spec fn tiles(self) -> Seq<(WindowId, Rect)>
        decreases self,
    {
        match self {
            Tree::Leaf { window, rec, .. } => seq![(window, rec)],
            Tree::Split { left, right, .. } => left.tiles() + right.tiles(),
        }
    }

    /// No handle and no window occurs twice.
    pub open spec fn well_formed(self) -> bool
        decreases self,
    {
        match self {
            Tree::Leaf { .. } => true,
            Tree::Split { id, left, right, .. } => {
                &&& left.well_formed()
                &&& right.well_formed()
                &&& !left.ids().contains(id)
                &&& !right.ids().contains(id)
                &&& left.ids().disjoint(right.ids())
                &&& left.windows().disjoint(right.windows())
            },
        }
    }

    /// Every split is tiled by the rectangles of its two children.
    pub open spec fn partitioned(self) -> bool
        decreases self,
    {
        match self {
            Tree::Leaf { .. } => true,
            Tree::Split { direction, rec, left, right, .. } => {
                &&& partitions(left.rect(), right.rect(), rec, direction)
                &&& left.partitioned()
                &&& right.partitioned()
            },
        }
    }

    /// The tree with every rectangle derived anew, top-down, from `rect`: a leaf fills the
    /// rectangle it is given, a split keeps its direction and hands each child one half.
    pub open spec fn laid_out(self, rect: Rect) -> Tree
        decreases self,
    {
        match self {
            Tree::Leaf { id, window, .. } => Tree::Leaf { id, window, rec: rect },
            Tree::Split { id, direction, left, right, .. } => Tree::Split {
                id,
                direction,
                rec: rect,
                left: Box::new(left.laid_out(first_half(rect, direction))),
                right: Box::new(right.laid_out(second_half(rect, direction))),
            },
        }
    }

    /// Laying the tree out in `rect` stays within the coordinate range at every split.
    pub open spec fn fits(self, rect: Rect) -> bool
        decreases self,
    {
        match self {
            Tree::Leaf { .. } => true,
            Tree::Split { direction, left, right, .. } => {
                &&& split_fits(rect, direction)
                &&& left.fits(first_half(rect, direction))
                &&& right.fits(second_half(rect, direction))
            },
        }
    }

    /// The subtree whose topmost node is `k`, for a handle of the tree.
    pub open spec fn subtree(self, k: NodeId) -> Tree
        decreases self,
    {
        if self.id() == k {
            self
        } else {
            match self {
                Tree::Leaf { .. } => self,
                Tree::Split { left, right, .. } => if left.ids().contains(k) {
                    left.subtree(k)
                } else {
                    right.subtree(k)
                },
            }
        }
    }

    /// The tree with the subtree at `k` exchanged for `sub`.
    pub open spec fn replace(self, k: NodeId, sub: Tree) -> Tree
        decreases self,
    {
        if self.id() == k {
            sub
        } else {
            match self {
                Tree::Leaf { .. } => self,
                Tree::Split { id, direction, rec, left, right } => if left.ids().contains(k) {
                    Tree::Split { id, direction, rec, left: Box::new(left.replace(k, sub)), right }
                } else if right.ids().contains(k) {
                    Tree::Split { id, direction, rec, left, right: Box::new(right.replace(k, sub)) }
                } else {
                    self
                },
            }
        }
    }

    /// Handle of the split that has `k` as a child, for a handle of the tree other than the
    /// topmost.
    pub open spec fn parent_id(self, k: NodeId) -> NodeId
        decreases self,
    {
        match self {
            Tree::Leaf { id, .. } => id,
            Tree::Split { id, left, right, .. } => if left.id() == k || right.id() == k {
                id
            } else if left.ids().contains(k) {
                left.parent_id(k)
            } else {
                right.parent_id(k)
            },
        }
    }

    /// Handle of the leaf that holds `w`, for a window of the tree.
    pub open spec fn leaf_of(self, w: WindowId) -> NodeId
        decreases self,
    {
        match self {
            Tree::Leaf { id, .. } => id,
            Tree::Split { left, right, .. } => if left.windows().contains(w) {
                left.leaf_of(w)
            } else {
                right.leaf_of(w)
            },
        }
    }

    /// Rectangle of the leaf that holds `w`, for a window of the tree.
    pub open spec fn rect_of(self, w: WindowId) -> Rect
        decreases self,
    {
        match self {
            Tree::Leaf { rec, .. } => rec,
            Tree::Split { left, right, .. } => if left.windows().contains(w) {
                left.rect_of(w)
            } else {
                right.rect_of(w)
            },
        }
    }

    /// The tree after the leaf of `target` became a split of that leaf's rectangle: `target`
    /// in the first half under the handle `first`, `new_window` in the second half under the
    /// handle `second`. The split takes over the old leaf's handle.
    pub open spec fn with_split(
        self,
        target: WindowId,
        new_window: WindowId,
        first: NodeId,
        second: NodeId,
    ) -> Tree {
        let rec = self.rect_of(target);
        let direction = split_direction(rec);
        self.replace(
            self.leaf_of(target),
            Tree::Split {
                id: self.leaf_of(target),
                direction,
                rec,
                left: Box::new(Tree::Leaf { id: first, window: target, rec: first_half(rec, direction) }),
                right: Box::new(
                    Tree::Leaf { id: second, window: new_window, rec: second_half(rec, direction) },
                ),
            },
        )
    }

    /// `post` is this tree after the leaf of `target` became a split for `new_window`, with
    /// two different handles for the new leaves that this tree does not use.
    pub open spec fn splits_into(self, post: Tree, target: WindowId, new_window: WindowId) -> bool {
        exists|first: NodeId, second: NodeId|
            {
                &&& first != second
                &&& !self.ids().contains(first)
                &&& !self.ids().contains(second)
                &&& post == #[trigger] self.with_split(target, new_window, first, second)
            }
    }

    /// The subtree moved up into the slot `id` of its former parent and laid out in the
    /// parent's rectangle.
    pub open spec fn promoted(self, id: NodeId, rec: Rect) -> Tree {
        match self {
            Tree::Leaf { window, .. } => Tree::Leaf { id, window, rec },
            Tree::Split { direction, left, right, .. } => (Tree::Split {
                id,
                direction,
                rec,
                left,
                right,
            }).laid_out(rec),
        }
    }

    /// The sibling of the child `k` of this split.
    pub open spec fn sibling_of(self, k: NodeId) -> Tree {
        match self {
            Tree::Leaf { .. } => self,
            Tree::Split { left, right, .. } => if left.id() == k {
                *right
            } else {
                *left
            },
        }
    }

    /// The tree without the leaf of `target`: the leaf's sibling takes the place of their
    /// parent. `None` when the leaf was the whole tree.
    pub open spec fn without(self, target: WindowId) -> Option<Tree> {
        let k = self.leaf_of(target);
        if self.id() == k {
            None
        } else {
            let p = self.parent_id(k);
            let parent = self.subtree(p);
            Some(self.replace(p, parent.sibling_of(k).promoted(p, parent.rect())))
        }
    }

    /// Removing `target` lays nothing out beyond the coordinate range.
    pub open spec fn without_fits(self, target: WindowId) -> bool {
        let k = self.leaf_of(target);
        self.id() != k ==> {
            let parent = self.subtree(self.parent_id(k));
            parent.sibling_of(k).fits(parent.rect())
        }
    }

    /// This split with its two children in each other's place, and no rectangle touched.
    pub open spec fn swapped(self) -> Tree {
        match self {
            Tree::Leaf { .. } => self,
            Tree::Split { id, direction, rec, left, right } => Tree::Split {
                id,
                direction,
                rec,
                left: right,
                right: left,
            },
        }
    }

    /// The tree after the parent of the leaf of `target` had its children swapped.
    pub open spec fn inverted(self, target: WindowId) -> Tree {
        let p = self.parent_id(self.leaf_of(target));
        self.replace(p, self.subtree(p).swapped())
    }

    /// Whether the left child of this split is the one that comes first on screen.
    pub open spec fn left_first(self) -> bool {
        match self {
            Tree::Leaf { .. } => true,
            Tree::Split { direction, left, right, .. } => comes_first(left.rect(), right.rect(), direction),
        }
    }

    /// How far the boundary between the children of this split moves when asked for `delta`.
    pub open spec fn boundary_shift(self, delta: int) -> int {
        match self {
            Tree::Leaf { .. } => 0,
            Tree::Split { direction, left, right, .. } => if self.left_first() {
                clamped_shift(extent(left.rect(), direction), extent(right.rect(), direction), delta)
            } else {
                clamped_shift(extent(right.rect(), direction), extent(left.rect(), direction), delta)
            },
        }
    }

    /// Rectangle of the left child of this split after its boundary was asked to move by
    /// `delta`.
    pub open spec fn left_after_shift(self, delta: int) -> Rect {
        match self {
            Tree::Leaf { rec, .. } => rec,
            Tree::Split { direction, left, .. } => if self.left_first() {
                grown(left.rect(), direction, self.boundary_shift(delta))
            } else {
                shrunk(left.rect(), direction, self.boundary_shift(delta))
            },
        }
    }

    /// Rectangle of the right child of this split after its boundary was asked to move by
    /// `delta`.
    pub open spec fn right_after_shift(self, delta: int) -> Rect {
        match self {
            Tree::Leaf { rec, .. } => rec,
            Tree::Split { direction, right, .. } => if self.left_first() {
                shrunk(right.rect(), direction, self.boundary_shift(delta))
            } else {
                grown(right.rect(), direction, self.boundary_shift(delta))
            },
        }
    }

    /// This split after the boundary between its children was asked to move by `delta`: the
    /// child that comes first grows by the clamped shift, the other starts that much later and
    /// shrinks, and both are laid out anew in their rectangles.
    pub open spec fn with_boundary_moved(self, delta: int) -> Tree {
        match self {
            Tree::Leaf { .. } => self,
            Tree::Split { id, direction, rec, left, right } => Tree::Split {
                id,
                direction,
                rec,
                left: Box::new(left.laid_out(self.left_after_shift(delta))),
                right: Box::new(right.laid_out(self.right_after_shift(delta))),
            },
        }
    }

    /// Moving the boundary of this split by `delta` stays within the coordinate range.
    pub open spec fn boundary_move_fits(self, delta: int) -> bool {
        match self {
            Tree::Leaf { .. } => true,
            Tree::Split { direction, left, right, .. } => {
                &&& if self.left_first() {
                    shift_fits(left.rect(), right.rect(), direction, self.boundary_shift(delta))
                } else {
                    shift_fits(right.rect(), left.rect(), direction, self.boundary_shift(delta))
                }
                &&& left.fits(self.left_after_shift(delta))
                &&& right.fits(self.right_after_shift(delta))
            },
        }
    }

    /// The component of a pointer offset that acts on this split: the horizontal one for
    /// tiles side by side, the vertical one for stacked tiles.
    pub open spec fn acting_offset(self, offset: (i32, i32)) -> int {
        match self {
            Tree::Leaf { .. } => 0,
            Tree::Split { direction, .. } => match direction {
                Direction::Horizontal => offset.0 as int,
                Direction::Vertical => offset.1 as int,
            },
        }
    }

    /// The tree after the boundary between the leaf of `target` and its sibling was asked to
    /// move by `offset`.
    pub open spec fn resized(self, target: WindowId, offset: (i32, i32)) -> Tree {
        let p = self.parent_id(self.leaf_of(target));
        let parent = self.subtree(p);
        self.replace(p, parent.with_boundary_moved(parent.acting_offset(offset)))
    }

    /// Resizing at `target` by `offset` stays within the coordinate range.
    pub open spec fn resize_fits(self, target: WindowId, offset: (i32, i32)) -> bool {
        let parent = self.subtree(self.parent_id(self.leaf_of(target)));
        parent.boundary_move_fits(parent.acting_offset(offset))
    }

    /// Every rectangle of the tree lies within a bound that starts at `s` for the topmost
    /// node and grows by one gap with every level.
    pub open spec fn tame(self, s: int) -> bool
        decreases self,
    {
        match self {
            Tree::Leaf { rec, .. } => bounded(rec, s),
            Tree::Split { rec, left, right, .. } => {
                &&& bounded(rec, s)
                &&& left.tame(s + GAP)
                &&& right.tame(s + GAP)
            },
        }
    }
}

} // verus!
